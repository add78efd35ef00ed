use n_edit::command::{Command, NewPosition, OffTarget};
use n_edit::engine::{Effect, Engine};
use n_edit::error::{EngineError, MatchError, NEditError};
use n_edit::model::{
    count_leading_spaces, DeleteContent, DeleteLine, LineRange, LocationContent, LocationLine,
    NewContent, NewLine,
};
use n_edit::output::DiffLineKind;

const PATH: &str = "test_file.txt";

/// An engine with `text` open as the file at `PATH`.
fn opened(text: &str) -> Engine {
    let mut engine = Engine::new();
    engine.open_text(PATH, text);
    engine
}

/// A location whose indentation is relative to its first line.
fn make_location_content(lines: &[&str]) -> LocationContent {
    if lines.is_empty() {
        return LocationContent { lines: vec![] };
    }
    let base_taps = count_leading_spaces(lines[0]);
    LocationContent {
        lines: lines
            .iter()
            .enumerate()
            .map(|(i, content)| LocationLine {
                index: i,
                diff_taps: Some(count_leading_spaces(content).saturating_sub(base_taps)),
                content: content.to_string(),
                line_num: None,
            })
            .collect(),
    }
}

/// New lines whose indentation is their own leading spaces.
fn make_new_content(lines: &[&str]) -> NewContent {
    NewContent {
        lines: lines
            .iter()
            .map(|content| {
                let taps = count_leading_spaces(content);
                NewLine {
                    diff_taps: taps,
                    content: content[taps..].to_string(),
                    is_raw: false,
                }
            })
            .collect(),
    }
}

fn make_delete_content(lines: &[&str]) -> DeleteContent {
    DeleteContent {
        lines: lines
            .iter()
            .map(|content| DeleteLine {
                content: content.to_string(),
                is_raw: false,
            })
            .collect(),
    }
}

/// Runs one command; it must be one that can complete.
fn run(engine: &mut Engine, command: Command) -> Result<Effect, NEditError> {
    assert!(engine.is_safe(&command));
    engine.run_command(&command)
}

fn location(engine: &mut Engine, lines: &[&str], block: bool, line_range: Option<LineRange>) -> Result<(), NEditError> {
    run(
        engine,
        Command::Location {
            block,
            line_range,
            content: make_location_content(lines),
        },
    )
    .map(|_| ())
}

fn new_at(engine: &mut Engine, position: NewPosition, lines: &[&str]) -> Result<(), NEditError> {
    run(
        engine,
        Command::New {
            position,
            content: make_new_content(lines),
        },
    )
    .map(|_| ())
}

fn delete(engine: &mut Engine, block: bool, lines: Option<&[&str]>, line_range: Option<LineRange>) -> Result<(), NEditError> {
    run(
        engine,
        Command::Delete {
            block,
            line_range,
            content: lines.map(make_delete_content),
        },
    )
    .map(|_| ())
}

fn off(engine: &mut Engine, target: OffTarget) -> Result<Effect, NEditError> {
    run(engine, Command::Off { target })
}

/// Runs a script as the front end does, with `text` as the content of every
/// opened file; returns the outcome and the last text written back.
fn execute(engine: &mut Engine, text: &str, commands: Vec<Command>) -> (Result<(), NEditError>, Option<String>) {
    let mut written = None;
    for command in commands {
        assert!(engine.is_safe(&command));
        match engine.run_command(&command) {
            Ok(Effect::ReadFile { path }) => engine.open_text(&path, text),
            Ok(Effect::WriteFile { text, .. }) => written = Some(text),
            Ok(Effect::Nothing) => {}
            Err(e) => return (Err(e), written),
        }
    }
    assert!(engine.can_finish());
    if let Effect::WriteFile { text, .. } = engine.finish() {
        written = Some(text);
    }
    (Ok(()), written)
}

fn open_cmd() -> Command {
    Command::Open {
        file_path: PATH.to_string(),
    }
}

fn file_lines(engine: &Engine) -> Vec<String> {
    engine.file.as_ref().unwrap().lines.iter().map(|l| l.content.clone()).collect()
}

fn top_lines(engine: &Engine) -> Vec<String> {
    engine.block_stack.last().unwrap().lines.iter().map(|l| l.content.clone()).collect()
}

fn diff_of_kind(engine: &Engine, kind: DiffLineKind) -> Vec<String> {
    engine
        .diff_lines
        .iter()
        .filter(|d| d.kind == kind)
        .map(|d| d.content.clone())
        .collect()
}

#[test]
fn test_engine_open_reads_file() {
    let mut engine = Engine::new();
    let (result, _) = execute(&mut engine, "line one\nline two\nline three\n", vec![open_cmd()]);
    assert!(result.is_ok());
    let file = engine.file.as_ref().unwrap();
    assert_eq!(file.lines.len(), 3);
    assert_eq!(file.lines[0].content, "line one");
}

#[test]
fn test_engine_location_pushes_to_block_stack() {
    let mut engine = opened("fn main() {\n    let x = 1;\n}\n");
    location(&mut engine, &["fn main() {"], false, None).unwrap();
    assert_eq!(engine.block_stack.len(), 1);
    assert_eq!(engine.block_stack[0].start_line, 1);
}

#[test]
fn test_engine_location_no_match_errors() {
    let mut engine = Engine::new();
    let (result, _) = execute(
        &mut engine,
        "fn foo() {}\nfn bar() {}\n",
        vec![
            open_cmd(),
            Command::Location {
                line_range: None,
                block: false,
                content: make_location_content(&["fn nonexistent() {}"]),
            },
        ],
    );
    assert!(result.is_err());
}

#[test]
fn test_engine_off_location_pops_stack() {
    let mut engine = Engine::new();
    let (result, _) = execute(
        &mut engine,
        "fn main() {\n    let x = 1;\n}\n",
        vec![
            open_cmd(),
            Command::Location {
                line_range: None,
                block: false,
                content: make_location_content(&["fn main() {"]),
            },
            Command::Off {
                target: OffTarget::Location,
            },
        ],
    );
    assert!(result.is_ok());
    assert_eq!(engine.block_stack.len(), 0);
}

#[test]
fn test_engine_off_open_writes_back_to_file() {
    let mut engine = Engine::new();
    let (result, written) = execute(
        &mut engine,
        "original content\n",
        vec![
            open_cmd(),
            Command::Off {
                target: OffTarget::Open,
            },
        ],
    );
    assert!(result.is_ok());
    assert_eq!(written.unwrap(), "original content\n");
}

#[test]
fn test_engine_implicit_off_open_writes_back() {
    let mut engine = Engine::new();
    let (result, written) = execute(&mut engine, "content\n", vec![open_cmd()]);
    assert!(result.is_ok());
    assert_eq!(written.unwrap(), "content\n");
}

#[test]
fn test_engine_full_open_location_off_flow() {
    let text = "// header\nfn process() {\n    do_work();\n}\n\nfn main() {\n    process();\n}\n";
    let mut engine = Engine::new();
    let (result, written) = execute(
        &mut engine,
        text,
        vec![
            open_cmd(),
            Command::Location {
                line_range: None,
                block: false,
                content: make_location_content(&["fn main() {"]),
            },
            Command::Off {
                target: OffTarget::Open,
            },
        ],
    );
    assert!(result.is_ok());
    let content = written.unwrap();
    assert!(content.contains("fn main()"));
    assert!(content.contains("fn process()"));
    assert_eq!(content, text);
}

#[test]
fn test_new_insert_normal() {
    let mut engine = opened("fn main() {\n    println!(\"hi\");\n}\n");
    location(&mut engine, &["fn main() {"], false, None).unwrap();
    new_at(&mut engine, NewPosition::Normal, &["    let x = 1;"]).unwrap();
    let lines = top_lines(&engine);
    assert_eq!(lines.len(), 4);
    assert_eq!(lines[1], "    let x = 1;");
}

#[test]
fn test_new_insert_start() {
    let mut engine = opened("fn main() {\n    println!(\"hi\");\n}\n");
    new_at(&mut engine, NewPosition::Start, &["// SPDX-License-Identifier: MIT"]).unwrap();
    let lines = file_lines(&engine);
    assert_eq!(lines.len(), 4);
    assert_eq!(lines[0], "// SPDX-License-Identifier: MIT");
}

#[test]
fn test_new_insert_end() {
    let mut engine = opened("fn main() {\n    println!(\"hi\");\n}\n");
    new_at(&mut engine, NewPosition::End, &["// EOF"]).unwrap();
    let lines = file_lines(&engine);
    assert_eq!(lines.len(), 4);
    assert_eq!(lines[3], "// EOF");
}

#[test]
fn test_new_insert_preserves_indentation() {
    let mut engine = opened("fn main() {\n    println!(\"hi\");\n}\n");
    location(&mut engine, &["fn main() {"], false, None).unwrap();
    new_at(&mut engine, NewPosition::Normal, &["    let a = 1;", "        let b = 2;"]).unwrap();
    let lines = top_lines(&engine);
    assert_eq!(lines[1], "    let a = 1;");
    assert_eq!(lines[2], "        let b = 2;");
}

#[test]
fn test_delete_removes_matching_lines() {
    let mut engine = opened("fn main() {\n    let x = 1;\n    let y = 2;\n    println!(\"{}\", x);\n}\n");
    location(&mut engine, &["fn main() {"], false, None).unwrap();
    delete(&mut engine, false, Some(&["    let x = 1;", "    let y = 2;"]), None).unwrap();
    assert_eq!(top_lines(&engine), vec!["fn main() {", "    println!(\"{}\", x);", "}"]);
}

#[test]
fn test_delete_requires_continuous_match() {
    let mut engine = opened("fn main() {\n    let x = 1;\n    let y = 2;\n    println!(\"{}\", x);\n}\n");
    location(&mut engine, &["fn main() {"], false, None).unwrap();
    let result = delete(&mut engine, false, Some(&["    let x = 1;", "    println!(\"{}\", x);"]), None);
    assert!(result.is_err());
}

#[test]
fn test_delete_content_not_found() {
    let mut engine = opened("fn main() {\n    println!(\"hi\");\n}\n");
    location(&mut engine, &["fn main() {"], false, None).unwrap();
    let result = delete(&mut engine, false, Some(&["    nonexistent content"]), None);
    match result {
        Err(NEditError::Match(MatchError::DeleteMatchFailed { delete_content, block_snippet })) => {
            assert_eq!(delete_content, "    nonexistent content");
            assert_eq!(block_snippet, "fn main() {\n    println!(\"hi\");\n}");
        }
        _ => panic!("expected DeleteMatchFailed"),
    }
}

#[test]
fn test_new_insert_normal_without_location_errors() {
    let mut engine = opened("fn main() {\n    println!(\"hi\");\n}\n");
    let result = new_at(&mut engine, NewPosition::Normal, &["    let x = 1;"]);
    assert!(matches!(result, Err(NEditError::Engine(EngineError::MissingLocationForNew))));
}

#[test]
fn test_full_new_delete_pipeline() {
    let mut engine = Engine::new();
    let (result, written) = execute(
        &mut engine,
        "fn main() {\n    old_code();\n}\n",
        vec![
            open_cmd(),
            Command::Location {
                line_range: None,
                block: false,
                content: make_location_content(&["fn main() {"]),
            },
            Command::Delete {
                line_range: None,
                block: false,
                content: Some(make_delete_content(&["    old_code();"])),
            },
            Command::New {
                position: NewPosition::Normal,
                content: make_new_content(&["    let x = 1;"]),
            },
            Command::Off {
                target: OffTarget::Open,
            },
        ],
    );
    assert!(result.is_ok());
    let content = written.unwrap();
    assert!(content.contains("    let x = 1;"));
    assert!(!content.contains("old_code"));
    assert_eq!(content, "fn main() {\n    let x = 1;\n}\n");
}

#[test]
fn test_new_produces_added_diff_lines() {
    let mut engine = opened("fn main() {\n    println!(\"hi\");\n}\n");
    location(&mut engine, &["fn main() {"], false, None).unwrap();
    new_at(&mut engine, NewPosition::Normal, &["    let x = 1;"]).unwrap();
    let added: Vec<_> = engine.diff_lines.iter().filter(|d| d.kind == DiffLineKind::Added).collect();
    assert_eq!(added.len(), 1);
    assert_eq!(added[0].content, "    let x = 1;");
    assert!(added[0].line_number.is_some());
}

#[test]
fn test_delete_produces_deleted_diff_lines() {
    let mut engine = opened("fn main() {\n    let x = 1;\n    let y = 2;\n}\n");
    location(&mut engine, &["fn main() {"], false, None).unwrap();
    delete(&mut engine, false, Some(&["    let x = 1;"]), None).unwrap();
    let deleted: Vec<_> = engine.diff_lines.iter().filter(|d| d.kind == DiffLineKind::Deleted).collect();
    assert_eq!(deleted.len(), 1);
    assert_eq!(deleted[0].content, "    let x = 1;");
    assert!(deleted[0].line_number.is_some());
}

#[test]
fn test_new_delete_produces_mixed_diff_lines() {
    let mut engine = Engine::new();
    let (result, _) = execute(
        &mut engine,
        "fn main() {\n    old_code();\n}\n",
        vec![
            open_cmd(),
            Command::Location {
                line_range: None,
                block: false,
                content: make_location_content(&["fn main() {"]),
            },
            Command::Delete {
                line_range: None,
                block: false,
                content: Some(make_delete_content(&["    old_code();"])),
            },
            Command::New {
                position: NewPosition::Normal,
                content: make_new_content(&["    let x = 1;"]),
            },
            Command::Off {
                target: OffTarget::Open,
            },
        ],
    );
    assert!(result.is_ok());
    assert_eq!(diff_of_kind(&engine, DiffLineKind::Deleted), vec!["    old_code();"]);
    assert_eq!(diff_of_kind(&engine, DiffLineKind::Added), vec!["    let x = 1;"]);
}

#[test]
fn test_new_start_produces_diff_lines() {
    let mut engine = opened("fn main() {\n}\n");
    new_at(&mut engine, NewPosition::Start, &["// SPDX-License-Identifier: MIT"]).unwrap();
    assert_eq!(engine.diff_lines.len(), 1);
    assert_eq!(engine.diff_lines[0].kind, DiffLineKind::Added);
    assert_eq!(engine.diff_lines[0].content, "// SPDX-License-Identifier: MIT");
}

#[test]
fn test_new_end_produces_diff_lines() {
    let mut engine = opened("fn main() {\n}\n");
    new_at(&mut engine, NewPosition::End, &["// EOF"]).unwrap();
    assert_eq!(engine.diff_lines.len(), 1);
    assert_eq!(engine.diff_lines[0].kind, DiffLineKind::Added);
    assert_eq!(engine.diff_lines[0].content, "// EOF");
}

#[test]
fn test_empty_location_delete_then_new_replaces_deleted() {
    let mut engine = opened("// header\nfn process() {\n    do_work();\n}\n\nfn main() {\n    old_code();\n}\n");
    location(&mut engine, &[], false, None).unwrap();
    delete(&mut engine, false, Some(&["    old_code();"]), None).unwrap();
    new_at(&mut engine, NewPosition::Normal, &["    new_code();"]).unwrap();
    let lines = top_lines(&engine);
    assert!(lines.contains(&"    new_code();".to_string()));
    assert!(!lines.contains(&"    old_code();".to_string()));
    assert!(lines.contains(&"fn main() {".to_string()));
    assert_eq!(lines[6], "    new_code();");
}

#[test]
fn test_empty_location_new_without_delete_inserts_at_end() {
    let mut engine = opened("line1\nline2\nline3\n");
    location(&mut engine, &[], false, None).unwrap();
    new_at(&mut engine, NewPosition::Normal, &["line4"]).unwrap();
    let lines = top_lines(&engine);
    assert_eq!(lines.len(), 4);
    assert_eq!(lines[3], "line4");
}

#[test]
fn test_delete_at_start_then_new_inserts_at_start() {
    let mut engine = opened("old first\nsecond\nthird\n");
    location(&mut engine, &[], false, None).unwrap();
    delete(&mut engine, false, Some(&["old first"]), None).unwrap();
    new_at(&mut engine, NewPosition::Normal, &["new first"]).unwrap();
    assert_eq!(top_lines(&engine), vec!["new first", "second", "third"]);
}

#[test]
fn test_delete_then_new_preserves_indentation() {
    let mut engine = opened("impl Foo {\n    fn bar() {\n        old_inner();\n    }\n}\n");
    location(&mut engine, &[], false, None).unwrap();
    delete(&mut engine, false, Some(&["        old_inner();"]), None).unwrap();
    new_at(&mut engine, NewPosition::Normal, &["        new_inner();"]).unwrap();
    assert_eq!(
        top_lines(&engine),
        vec!["impl Foo {", "    fn bar() {", "        new_inner();", "    }", "}"]
    );
}

#[test]
fn test_nested_location_basic() {
    let mut engine = opened("fn outer() {\n    let x = 1;\n    fn inner() {\n        let y = 2;\n    }\n    let z = 3;\n}\n");
    location(&mut engine, &["fn outer() {"], false, None).unwrap();
    location(&mut engine, &["    fn inner() {"], false, None).unwrap();
    assert_eq!(engine.block_stack.len(), 2);
    let inner_block = &engine.block_stack[1];
    assert_eq!(inner_block.start_line, 3);
    assert!(inner_block.lines.len() >= 3);
    off(&mut engine, OffTarget::Location).unwrap();
    assert_eq!(engine.block_stack.len(), 1);
    off(&mut engine, OffTarget::Location).unwrap();
    assert_eq!(engine.block_stack.len(), 0);
}

#[test]
fn test_nested_location_new() {
    let mut engine = opened("fn outer() {\n    fn inner() {\n        let a = 1;\n    }\n}\n");
    location(&mut engine, &["fn outer() {"], false, None).unwrap();
    location(&mut engine, &["    fn inner() {"], false, None).unwrap();
    new_at(&mut engine, NewPosition::Normal, &["        let b = 2;"]).unwrap();
    let inner = top_lines(&engine);
    assert!(inner.iter().any(|l| l.contains("let b = 2;")));
    assert!(inner.len() >= 4);
    assert!(engine.block_stack[0].lines.len() >= 4);
}

#[test]
fn test_nested_location_delete() {
    let mut engine = opened("fn outer() {\n    fn inner() {\n        let old = 1;\n        let keep = 2;\n    }\n}\n");
    location(&mut engine, &["fn outer() {"], false, None).unwrap();
    location(&mut engine, &["    fn inner() {"], false, None).unwrap();
    delete(&mut engine, false, Some(&["        let old = 1;"]), None).unwrap();
    let inner = top_lines(&engine);
    assert!(!inner.iter().any(|l| l.contains("let old")));
    assert!(inner.iter().any(|l| l.contains("let keep")));
    assert!(inner.len() >= 3);
}

#[test]
fn test_nested_location_off_chain() {
    let mut engine = opened("fn outer() {\n    fn inner() {\n        let old = 1;\n    }\n    let z = 3;\n}\n");
    location(&mut engine, &["fn outer() {"], false, None).unwrap();
    location(&mut engine, &["    fn inner() {"], false, None).unwrap();
    delete(&mut engine, false, Some(&["        let old = 1;"]), None).unwrap();
    new_at(&mut engine, NewPosition::Normal, &["        let new = 2;"]).unwrap();
    off(&mut engine, OffTarget::Location).unwrap();
    assert_eq!(engine.block_stack.len(), 1);
    let outer = top_lines(&engine);
    assert!(outer.iter().any(|l| l.contains("let new = 2;")));
    assert!(!outer.iter().any(|l| l.contains("let old")));
    off(&mut engine, OffTarget::Location).unwrap();
    let file = file_lines(&engine);
    assert!(!file.iter().any(|l| l.contains("let old")));
    assert!(file.iter().any(|l| l.contains("let new")));
    assert!(file.iter().any(|l| l.contains("let z")));
}

#[test]
fn test_nested_location_with_empty_inner() {
    let mut engine = opened("fn outer() {\n    fn inner() {\n        let x = 1;\n    }\n    let y = 2;\n}\n");
    location(&mut engine, &["fn outer() {"], false, None).unwrap();
    location(&mut engine, &[], false, None).unwrap();
    let inner_block = engine.block_stack.last().unwrap();
    assert_eq!(inner_block.start_line, 1);
    assert_eq!(inner_block.lines.len(), 6);
}

#[test]
fn test_nested_location_new_start_end() {
    let mut engine = opened("fn outer() {\n    fn inner() {\n        let x = 1;\n    }\n}\n");
    location(&mut engine, &["fn outer() {"], false, None).unwrap();
    location(&mut engine, &["    fn inner() {"], false, None).unwrap();
    new_at(&mut engine, NewPosition::Start, &["        // start of inner"]).unwrap();
    assert_eq!(top_lines(&engine)[0], "        // start of inner");
    new_at(&mut engine, NewPosition::End, &["        // end of inner"]).unwrap();
    assert_eq!(top_lines(&engine).last().unwrap(), "        // end of inner");
}

#[test]
fn test_nested_location_via_commands() {
    let mut engine = Engine::new();
    let (result, _) = execute(
        &mut engine,
        "fn outer() {\n    fn inner() {\n        let a = 1;\n    }\n}\n",
        vec![
            open_cmd(),
            Command::Location {
                line_range: None,
                block: false,
                content: make_location_content(&["fn outer() {"]),
            },
            Command::Location {
                line_range: None,
                block: false,
                content: make_location_content(&["    fn inner() {"]),
            },
            Command::New {
                position: NewPosition::Normal,
                content: make_new_content(&["        let b = 2;"]),
            },
            Command::Off {
                target: OffTarget::Location,
            },
            Command::Off {
                target: OffTarget::Location,
            },
        ],
    );
    assert!(result.is_ok());
    let file = file_lines(&engine);
    assert!(file.iter().any(|l| l.contains("let b = 2;")));
    assert!(file.iter().any(|l| l.contains("fn outer")));
    assert!(file.iter().any(|l| l.contains("fn inner")));
}

#[test]
fn test_nested_three_level_method_match_arm() {
    let content = [
        "impl Service {",
        "    fn process(&self, status: Status) {",
        "        match status {",
        "            Status::Active => {",
        "                self.do_work();",
        "            }",
        "            Status::Inactive => {",
        "                self.skip();",
        "            }",
        "        }",
        "    }",
        "}",
    ]
    .join("\n");
    let mut engine = opened(&content);
    location(&mut engine, &["impl Service {"], false, None).unwrap();
    location(&mut engine, &["        match status {"], false, None).unwrap();
    location(&mut engine, &["            Status::Active => {"], false, None).unwrap();
    new_at(&mut engine, NewPosition::Normal, &["                log::info!(\"processing active status\");"]).unwrap();
    assert!(top_lines(&engine).iter().any(|l| l.contains("log::info")));
    off(&mut engine, OffTarget::Location).unwrap();
    off(&mut engine, OffTarget::Location).unwrap();
    off(&mut engine, OffTarget::Location).unwrap();
    let file = file_lines(&engine);
    assert!(file.iter().any(|l| l.contains("log::info")));
    assert!(file.iter().any(|l| l.contains("Status::Inactive")));
}

#[test]
fn test_nested_three_level_async_error_refactor() {
    let content = [
        "async fn handle_request(req: Request) -> Result<Response> {",
        "    let data = fetch_data().await?;",
        "    if let Some(payload) = data.payload {",
        "        match payload.kind {",
        "            Kind::Success => process(payload).await?,",
        "            Kind::Retry => {",
        "                self.retry_count += 1;",
        "                return Err(Error::retry_exhausted());",
        "            }",
        "        }",
        "    }",
        "    Ok(Response::ok())",
        "}",
    ]
    .join("\n");
    let mut engine = opened(&content);
    location(&mut engine, &["async fn handle_request(req: Request) -> Result<Response> {"], false, None).unwrap();
    location(&mut engine, &["    if let Some(payload) = data.payload {"], false, None).unwrap();
    location(&mut engine, &["        Kind::Retry => {"], false, None).unwrap();
    delete(
        &mut engine,
        false,
        Some(&["            self.retry_count += 1;", "            return Err(Error::retry_exhausted());"]),
        None,
    )
    .unwrap();
    new_at(
        &mut engine,
        NewPosition::Normal,
        &[
            "            self.metrics.record_retry();",
            "            self.retry_count += 1;",
            "            if self.retry_count > 3 {",
            "                return Err(Error::retry_exhausted());",
            "            }",
            "            continue;",
        ],
    )
    .unwrap();
    off(&mut engine, OffTarget::Location).unwrap();
    off(&mut engine, OffTarget::Location).unwrap();
    off(&mut engine, OffTarget::Location).unwrap();
    let joined = file_lines(&engine).join("\n");
    assert!(!joined.contains("self.retry_count += 1;\n            return Err"));
    assert!(joined.contains("self.metrics.record_retry()"));
    assert!(joined.contains("if self.retry_count > 3"));
    assert!(joined.contains("Kind::Success"));
}

#[test]
fn test_nested_cross_level_new_delete_with_module_end() {
    let mut engine = opened(
        "pub mod utils {\n\
         pub fn validate(input: &str) -> bool {\n\
         let trimmed = input.trim();\n\
         if trimmed.is_empty() {\n\
         self.log_warning();\n\
         return false;\n\
         }\n\
         true\n\
         }\n\
         }\n",
    );
    location(&mut engine, &["pub mod utils {"], false, None).unwrap();
    new_at(
        &mut engine,
        NewPosition::End,
        &["", "    pub fn sanitize(input: &str) -> String {", "        input.trim().to_lowercase()", "    }"],
    )
    .unwrap();
    location(&mut engine, &["    pub fn validate(input: &str) -> bool {"], false, None).unwrap();
    location(&mut engine, &["        if trimmed.is_empty() {"], false, None).unwrap();
    delete(&mut engine, false, Some(&["            self.log_warning();"]), None).unwrap();
    new_at(&mut engine, NewPosition::Normal, &["            crate::log::warn(\"empty input\");"]).unwrap();
    off(&mut engine, OffTarget::Location).unwrap();
    off(&mut engine, OffTarget::Location).unwrap();
    off(&mut engine, OffTarget::Location).unwrap();
    let joined = file_lines(&engine).join("\n");
    assert!(joined.contains("pub fn sanitize"));
    assert!(joined.contains("input.trim().to_lowercase()"));
    assert!(!joined.contains("self.log_warning()"));
    assert!(joined.contains("crate::log::warn"));
    assert!(joined.contains("pub fn validate"));
}

#[test]
fn test_nested_deep_indentation_preserved() {
    let mut engine = opened(
        "struct Processor {\n\
         items: Vec<Item>,\n\
         }\n\
         impl Processor {\n\
         fn run(&mut self) {\n\
         for item in &self.items {\n\
         if item.is_valid() {\n\
         item.process();\n\
         }\n\
         }\n\
         }\n\
         }\n",
    );
    location(&mut engine, &["impl Processor {"], false, None).unwrap();
    location(&mut engine, &["    fn run(&mut self) {"], false, None).unwrap();
    location(&mut engine, &["        for item in &self.items {"], false, None).unwrap();
    location(&mut engine, &["            if item.is_valid() {"], false, None).unwrap();
    new_at(
        &mut engine,
        NewPosition::Normal,
        &[
            "                log::debug!(\"processing item {}\", item.id);",
            "                metrics::increment_counter(\"items_processed\");",
        ],
    )
    .unwrap();
    let innermost = engine.block_stack.last().unwrap();
    let logged = innermost.lines.iter().find(|l| l.content.contains("log::debug"));
    assert!(logged.is_some(), "log::debug line should exist");
    assert_eq!(logged.unwrap().taps, 16, "log::debug should have 16 spaces indent");
    for _ in 0..4 {
        off(&mut engine, OffTarget::Location).unwrap();
    }
    let file = file_lines(&engine);
    assert!(file.iter().any(|l| l.contains("metrics::increment_counter")));
    assert!(file.iter().any(|l| l.contains("item.process()")));
}

#[test]
fn test_nested_multi_operation_inner_block() {
    let content = [
        "fn handler() {",
        "    let config = load_config();",
        "    let mut buffer = Vec::new();",
        "    process_data(&mut buffer);",
        "    let result = finalize(buffer);",
        "    log_result(&result);",
        "}",
    ]
    .join("\n");
    let mut engine = opened(&content);
    location(&mut engine, &["fn handler() {"], false, None).unwrap();
    location(&mut engine, &["    let mut buffer = Vec::new();"], false, None).unwrap();
    new_at(&mut engine, NewPosition::Normal, &["    buffer.reserve(1024);"]).unwrap();
    off(&mut engine, OffTarget::Location).unwrap();
    location(&mut engine, &[], false, None).unwrap();
    location(&mut engine, &["    process_data(&mut buffer);"], false, None).unwrap();
    delete(&mut engine, false, Some(&["    process_data(&mut buffer);"]), None).unwrap();
    new_at(
        &mut engine,
        NewPosition::Normal,
        &["    validate_buffer(&buffer);", "    transform_data(&mut buffer);"],
    )
    .unwrap();
    off(&mut engine, OffTarget::Location).unwrap();
    off(&mut engine, OffTarget::Location).unwrap();
    off(&mut engine, OffTarget::Location).unwrap();
    let joined = file_lines(&engine).join("\n");
    assert!(joined.contains("buffer.reserve(1024)"));
    assert!(joined.contains("validate_buffer"));
    assert!(joined.contains("transform_data"));
    assert!(!joined.contains("process_data(&mut buffer)"));
    assert!(joined.contains("fn handler() {"));
    assert!(joined.contains("log_result(&result)"));
}

#[test]
fn test_nested_location_block_delete_and_new() {
    let content = [
        "impl Calculator {",
        "    fn add(&self, a: i32, b: i32) -> i32 {",
        "        a + b",
        "    }",
        "    fn old_method(&self) {",
        "        self.deprecated_work();",
        "        self.cleanup();",
        "    }",
        "    fn multiply(&self, a: i32, b: i32) -> i32 {",
        "        a * b",
        "    }",
        "}",
    ]
    .join("\n");
    let mut engine = opened(&content);
    location(&mut engine, &["impl Calculator {"], false, None).unwrap();
    location(&mut engine, &["    fn old_method(&self) {", "        self.deprecated_work();"], false, None).unwrap();
    delete(
        &mut engine,
        false,
        Some(&["    fn old_method(&self) {", "        self.deprecated_work();", "        self.cleanup();", "    }"]),
        None,
    )
    .unwrap();
    new_at(
        &mut engine,
        NewPosition::Normal,
        &["    fn subtract(&self, a: i32, b: i32) -> i32 {", "        a - b", "    }"],
    )
    .unwrap();
    off(&mut engine, OffTarget::Location).unwrap();
    off(&mut engine, OffTarget::Location).unwrap();
    let joined = file_lines(&engine).join("\n");
    assert!(!joined.contains("fn old_method"));
    assert!(!joined.contains("deprecated_work"));
    assert!(joined.contains("fn subtract"));
    assert!(joined.contains("fn add"));
    assert!(joined.contains("fn multiply"));
}

#[test]
fn test_nested_diff_lines_tracks_all_changes() {
    let mut engine = opened("fn run() {\n    let x = old_calc();\n    let y = x + 1;\n}\n");
    location(&mut engine, &["fn run() {"], false, None).unwrap();
    location(&mut engine, &["    let x = old_calc();"], false, None).unwrap();
    delete(&mut engine, false, Some(&["    let x = old_calc();"]), None).unwrap();
    new_at(&mut engine, NewPosition::Normal, &["    let x = new_calc();", "    debug_assert!(x >= 0);"]).unwrap();
    location(&mut engine, &["    debug_assert!(x >= 0);"], false, None).unwrap();
    new_at(&mut engine, NewPosition::Normal, &["    log::info!(\"x = {}\", x);"]).unwrap();
    off(&mut engine, OffTarget::Location).unwrap();
    off(&mut engine, OffTarget::Location).unwrap();
    off(&mut engine, OffTarget::Location).unwrap();
    let added = diff_of_kind(&engine, DiffLineKind::Added);
    let deleted = diff_of_kind(&engine, DiffLineKind::Deleted);
    assert_eq!(deleted.len(), 1, "Should have 1 deleted line");
    assert!(deleted[0].contains("old_calc"));
    assert_eq!(added.len(), 3, "Should have 3 added lines");
    assert!(added.iter().any(|d| d.contains("new_calc")));
    assert!(added.iter().any(|d| d.contains("debug_assert")));
    assert!(added.iter().any(|d| d.contains("log::info")));
}

#[test]
fn test_line_number_location_basic() {
    let mut engine = opened("line 1\nline 2\nline 3\nline 4\nline 5\n");
    location(&mut engine, &[], false, Some(LineRange { start: 2, end: 4 })).unwrap();
    let block = engine.block_stack.last().unwrap();
    assert_eq!(top_lines(&engine), vec!["line 2", "line 3", "line 4"]);
    assert_eq!(block.start_line, 2);
    assert_eq!(block.end_line, 4);
}

#[test]
fn test_line_number_location_single_line() {
    let mut engine = opened("a\nb\nc\n");
    location(&mut engine, &[], false, Some(LineRange { start: 1, end: 1 })).unwrap();
    assert_eq!(top_lines(&engine), vec!["a"]);
    assert_eq!(engine.block_stack.last().unwrap().start_line, 1);
}

#[test]
fn test_line_number_location_beyond_range_errors() {
    let mut engine = opened("a\nb\n");
    let result = location(&mut engine, &[], false, Some(LineRange { start: 10, end: 10 }));
    match result {
        Err(NEditError::Match(MatchError::NoMatch { location_content })) => {
            assert_eq!(location_content, "行号 10 超出范围（共 2 行）");
        }
        _ => panic!("expected NoMatch"),
    }
}

#[test]
fn test_line_number_location_then_new() {
    let mut engine = opened("fn main() {\n    old_a();\n    old_b();\n}\n");
    location(&mut engine, &[], false, Some(LineRange { start: 2, end: 2 })).unwrap();
    new_at(&mut engine, NewPosition::Normal, &["    new_code();"]).unwrap();
    assert!(top_lines(&engine).iter().any(|l| l == "    new_code();"));
}

#[test]
fn test_line_number_location_nested() {
    let mut engine = opened("fn outer() {\n    fn inner() {\n        let a = 1;\n        let b = 2;\n    }\n    let c = 3;\n}\n");
    location(&mut engine, &[], false, Some(LineRange { start: 1, end: 7 })).unwrap();
    location(&mut engine, &[], false, Some(LineRange { start: 2, end: 5 })).unwrap();
    let inner_block = engine.block_stack.last().unwrap();
    assert_eq!(inner_block.start_line, 2);
    assert_eq!(inner_block.end_line, 5);
    assert!(top_lines(&engine).iter().any(|l| l.contains("fn inner()")));
}

#[test]
fn test_line_number_delete_basic() {
    let mut engine = opened("fn main() {\n    old_a();\n    old_b();\n    old_c();\n}\n");
    location(&mut engine, &[], false, None).unwrap();
    delete(&mut engine, false, None, Some(LineRange { start: 2, end: 3 })).unwrap();
    assert_eq!(top_lines(&engine), vec!["fn main() {", "    old_c();", "}"]);
}

#[test]
fn test_line_number_delete_produces_diff_lines() {
    let mut engine = opened("line1\nline2\nline3\n");
    location(&mut engine, &[], false, None).unwrap();
    delete(&mut engine, false, None, Some(LineRange { start: 2, end: 2 })).unwrap();
    assert_eq!(diff_of_kind(&engine, DiffLineKind::Deleted), vec!["line2"]);
}

#[test]
fn test_line_number_delete_beyond_range_errors() {
    let mut engine = opened("a\nb\n");
    location(&mut engine, &[], false, None).unwrap();
    let result = delete(&mut engine, false, None, Some(LineRange { start: 100, end: 100 }));
    match result {
        Err(NEditError::Match(MatchError::NoMatch { location_content })) => {
            assert_eq!(location_content, "Delete 行号 100 超出范围（Block 共 2 行）");
        }
        _ => panic!("expected NoMatch"),
    }
}

#[test]
fn test_raw_content_in_new_via_parser() {
    let mut engine = opened("fn main() {\n    println!(\"hi\");\n}\n");
    location(&mut engine, &["fn main() {"], false, None).unwrap();
    let command = Command::New {
        position: NewPosition::Normal,
        content: NewContent {
            lines: vec![NewLine {
                diff_taps: 0,
                content: "...".to_string(),
                is_raw: true,
            }],
        },
    };
    run(&mut engine, command).unwrap();
    assert!(top_lines(&engine).iter().any(|l| l == "..."));
}

#[test]
fn test_line_range_content_block_boundaries() {
    let mut engine = opened("// L1: header\nfn main() {\n    let a = 1;\n    let b = 2;\n    let c = 3;\n}\n");
    location(&mut engine, &[], false, Some(LineRange { start: 3, end: 5 })).unwrap();
    let block = engine.block_stack.last().unwrap();
    assert_eq!(block.start_line, 3);
    assert_eq!(block.end_line, 5);
    assert_eq!(top_lines(&engine), vec!["    let a = 1;", "    let b = 2;", "    let c = 3;"]);
}

#[test]
fn test_line_range_delete_reindexes_correctly() {
    let mut engine = opened("A\nB\nC\nD\nE\n");
    location(&mut engine, &[], false, None).unwrap();
    delete(&mut engine, false, None, Some(LineRange { start: 2, end: 3 })).unwrap();
    let block = engine.block_stack.last().unwrap();
    assert_eq!(block.lines.len(), 3);
    assert_eq!(block.lines[0].content, "A");
    assert_eq!(block.lines[0].line_num, 1);
    assert_eq!(block.lines[1].content, "D");
    assert_eq!(block.lines[1].line_num, 2);
    assert_eq!(block.lines[2].content, "E");
    assert_eq!(block.lines[2].line_num, 3);
}

#[test]
fn test_line_range_location_then_new_inserts_after_last_matched() {
    let mut engine = opened("fn main() {\n    old1();\n    old2();\n}\n");
    location(&mut engine, &[], false, None).unwrap();
    location(&mut engine, &[], false, Some(LineRange { start: 2, end: 2 })).unwrap();
    assert_eq!(top_lines(&engine), vec!["    old1();"]);
    new_at(&mut engine, NewPosition::Normal, &["    new_after_old1();"]).unwrap();
    let lines = top_lines(&engine);
    assert_eq!(lines[0], "    old1();");
    assert_eq!(lines[1], "    new_after_old1();");
}

#[test]
fn test_line_range_delete_then_new_replace() {
    let mut engine = opened("fn main() {\n    a();\n    b();\n    c();\n}\n");
    location(&mut engine, &[], false, None).unwrap();
    delete(&mut engine, false, None, Some(LineRange { start: 2, end: 3 })).unwrap();
    new_at(&mut engine, NewPosition::Normal, &["    x();", "    y();"]).unwrap();
    assert_eq!(top_lines(&engine), vec!["fn main() {", "    x();", "    y();", "    c();", "}"]);
}

#[test]
fn test_line_range_delete_first_line() {
    let mut engine = opened("first\nsecond\nthird\n");
    location(&mut engine, &[], false, None).unwrap();
    delete(&mut engine, false, None, Some(LineRange { start: 1, end: 1 })).unwrap();
    assert_eq!(top_lines(&engine), vec!["second", "third"]);
    assert_eq!(diff_of_kind(&engine, DiffLineKind::Deleted), vec!["first"]);
}

#[test]
fn test_line_range_delete_last_line() {
    let mut engine = opened("first\nsecond\nthird\n");
    location(&mut engine, &[], false, None).unwrap();
    delete(&mut engine, false, None, Some(LineRange { start: 3, end: 3 })).unwrap();
    assert_eq!(top_lines(&engine), vec!["first", "second"]);
}

#[test]
fn test_line_range_location_block_expands_range() {
    let mut engine = opened("// L1\nfn process() {\n    do_a();\n    do_b();\n}\n// L6\nfn other() {}\n");
    location(&mut engine, &[], true, Some(LineRange { start: 2, end: 2 })).unwrap();
    let block = engine.block_stack.last().unwrap();
    assert_eq!(block.start_line, 2);
    assert_eq!(block.end_line, 5);
    assert_eq!(top_lines(&engine), vec!["fn process() {", "    do_a();", "    do_b();", "}"]);
}

#[test]
fn test_line_range_location_block_then_new_inserts_after_block() {
    let mut engine = opened("fn old_func() {\n    old_code();\n}\nfn keep_func() {}\n");
    location(&mut engine, &[], false, None).unwrap();
    location(&mut engine, &[], true, Some(LineRange { start: 1, end: 1 })).unwrap();
    new_at(&mut engine, NewPosition::Normal, &["fn new_func() {", "    new_code();", "}"]).unwrap();
    assert_eq!(
        top_lines(&engine),
        vec!["fn old_func() {", "    old_code();", "}", "fn new_func() {", "    new_code();", "}"]
    );
    off(&mut engine, OffTarget::Location).unwrap();
    let outer = top_lines(&engine);
    assert!(outer.contains(&"fn new_func() {".to_string()));
    assert!(outer.contains(&"fn keep_func() {}".to_string()));
}

#[test]
fn test_line_range_delete_block_via_commands() {
    let mut engine = opened("fn a() {}\nfn remove_me() {\n    dead_code();\n}\nfn c() {}\n");
    location(&mut engine, &[], false, None).unwrap();
    location(&mut engine, &[], true, Some(LineRange { start: 2, end: 2 })).unwrap();
    assert_eq!(engine.block_stack.last().unwrap().start_line, 2);
    assert!(top_lines(&engine).iter().any(|l| l.contains("fn remove_me")));
    delete(&mut engine, true, None, None).unwrap();
    off(&mut engine, OffTarget::Location).unwrap();
    off(&mut engine, OffTarget::Location).unwrap();
    let lines = file_lines(&engine);
    assert!(lines.contains(&"fn a() {}".to_string()));
    assert!(!lines.contains(&"fn remove_me() {".to_string()));
    assert!(!lines.contains(&"    dead_code();".to_string()));
    assert!(lines.contains(&"fn c() {}".to_string()));
}

#[test]
fn test_line_range_end_clamps_to_file_end() {
    let mut engine = opened("A\nB\nC\n");
    location(&mut engine, &[], false, Some(LineRange { start: 2, end: 999 })).unwrap();
    let block = engine.block_stack.last().unwrap();
    assert_eq!(block.start_line, 2);
    assert_eq!(block.end_line, 3);
    assert_eq!(block.lines.len(), 2);
}

#[test]
fn test_line_range_delete_inside_nested_block() {
    let mut engine = opened("impl Foo {\n    fn bar(&self) {\n        let x = 1;\n        let y = 2;\n        let z = 3;\n    }\n}\n");
    location(&mut engine, &[], false, Some(LineRange { start: 1, end: 7 })).unwrap();
    location(&mut engine, &[], false, Some(LineRange { start: 2, end: 6 })).unwrap();
    delete(&mut engine, false, None, Some(LineRange { start: 3, end: 3 })).unwrap();
    off(&mut engine, OffTarget::Location).unwrap();
    off(&mut engine, OffTarget::Location).unwrap();
    let joined = file_lines(&engine).join("\n");
    assert!(joined.contains("let x = 1;"));
    assert!(!joined.contains("let y = 2;"));
    assert!(joined.contains("let z = 3;"));
    assert!(joined.contains("fn bar(&self) {"));
    assert!(joined.contains("impl Foo {"));
}

#[test]
fn test_line_range_delete_multi_produces_all_diff_lines() {
    let mut engine = opened("1\n2\n3\n4\n5\n");
    location(&mut engine, &[], false, None).unwrap();
    delete(&mut engine, false, None, Some(LineRange { start: 2, end: 4 })).unwrap();
    assert_eq!(diff_of_kind(&engine, DiffLineKind::Deleted), vec!["2", "3", "4"]);
}

#[test]
fn test_parse_line_range_location_via_commands() {
    let mut engine = Engine::new();
    let (result, written) = execute(
        &mut engine,
        "// L1\n// L2\n// L3\n// L4\n// L5\n",
        vec![
            open_cmd(),
            Command::Location {
                block: false,
                line_range: Some(LineRange { start: 2, end: 4 }),
                content: make_location_content(&[]),
            },
            Command::New {
                position: NewPosition::Normal,
                content: make_new_content(&["// inserted"]),
            },
            Command::Off {
                target: OffTarget::Open,
            },
        ],
    );
    assert!(result.is_ok());
    assert_eq!(file_lines(&engine), vec!["// L1", "// L2", "// L3", "// L4", "// inserted", "// L5"]);
    assert_eq!(written.unwrap(), "// L1\n// L2\n// L3\n// L4\n// inserted\n// L5\n");
}

#[test]
fn test_line_range_delete_ignores_content() {
    let mut engine = Engine::new();
    let (result, _) = execute(
        &mut engine,
        "fn main() {\n    a();\n    b();\n    c();\n}\n",
        vec![
            open_cmd(),
            Command::Location {
                block: false,
                line_range: None,
                content: make_location_content(&["fn main() {"]),
            },
            Command::Delete {
                block: false,
                line_range: Some(LineRange { start: 2, end: 2 }),
                content: Some(make_delete_content(&["    unrelated();"])),
            },
            Command::Off {
                target: OffTarget::Open,
            },
        ],
    );
    assert!(result.is_ok());
    let lines = file_lines(&engine);
    assert!(!lines.contains(&"    a();".to_string()));
    assert!(lines.contains(&"    b();".to_string()));
    assert!(lines.contains(&"fn main() {".to_string()));
}

#[test]
fn test_line_range_location_block_python_style() {
    let mut engine = opened("def outer():\n    def inner():\n        pass\n    return 0\n");
    location(&mut engine, &[], true, Some(LineRange { start: 2, end: 2 })).unwrap();
    let block = engine.block_stack.last().unwrap();
    assert_eq!(block.start_line, 2);
    assert_eq!(block.end_line, 3);
    assert_eq!(block.lines.len(), 2);
    assert_eq!(block.lines[0].content, "    def inner():");
}
