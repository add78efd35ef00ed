use n_edit::command::Command;
use n_edit::engine::{Effect, Engine};
use n_edit::error::{FileError, NEditError};
use n_edit::model::LineNumber;
use n_edit::script::{Lexer, Parser as ScriptParser, Token};

/// Files held in memory, standing for the disk the program reads and writes.
struct Disk {
    files: Vec<(String, String)>,
}

impl Disk {
    fn new() -> Self {
        Disk { files: vec![] }
    }

    fn create_file(&mut self, name: &str, content: &str) -> String {
        let path = format!("/work/{}", name);
        self.write(&path, content);
        path
    }

    fn read(&self, path: &str) -> Option<String> {
        self.files.iter().find(|(p, _)| p == path).map(|(_, t)| t.clone())
    }

    fn write(&mut self, path: &str, text: &str) {
        match self.files.iter_mut().find(|(p, _)| p == path) {
            Some(entry) => entry.1 = text.to_string(),
            None => self.files.push((path.to_string(), text.to_string())),
        }
    }

    fn perform(&mut self, engine: &mut Engine, effect: Effect) -> Result<(), NEditError> {
        match effect {
            Effect::Nothing => Ok(()),
            Effect::ReadFile { path } => match self.read(&path) {
                Some(text) => {
                    engine.open_text(&path, &text);
                    Ok(())
                }
                None => Err(NEditError::File(FileError::NotFound { path })),
            },
            Effect::WriteFile { path, text } => {
                self.write(&path, &text);
                Ok(())
            }
        }
    }

    /// Runs the commands in order, then the implicit `Off:Open`.
    fn execute(&mut self, engine: &mut Engine, commands: Vec<Command>) -> Result<(), NEditError> {
        for command in commands {
            assert!(engine.is_safe(&command));
            let effect = engine.run_command(&command)?;
            self.perform(engine, effect)?;
        }
        assert!(engine.can_finish());
        let effect = engine.finish();
        self.perform(engine, effect)
    }
}

#[test]
fn test_full_pipeline_open_location_off() {
    let mut disk = Disk::new();

    let target_content =
        "// header\nfn process() {\n    do_work();\n}\n\nfn main() {\n    process();\n}\n";
    let target_path = disk.create_file("sample.rs", target_content);

    let ned_script = format!(
        "//!@Open: {}\n//!@Location:\nfn main() {{\n...\n//!@Off:Open\n",
        target_path
    );
    let ned_path = disk.create_file("test_open_location.ned", &ned_script);

    let script_content = disk.read(&ned_path).unwrap();

    let tokens = Lexer::tokenize(&script_content);
    assert_eq!(tokens.len(), 4); // Open, Location, Separator, Off

    let commands = ScriptParser::parse(tokens).unwrap();
    assert_eq!(commands.len(), 3);

    let mut engine = Engine::new();
    disk.execute(&mut engine, commands).unwrap();

    let result_content = disk.read(&target_path).unwrap();
    assert_eq!(result_content, target_content);
}

#[test]
fn test_full_pipeline_open_location_implicit_off() {
    let mut disk = Disk::new();

    let target_content = "fn foo() {}\nfn bar() {}\n";
    let target_path = disk.create_file("implicit.rs", target_content);

    let ned_script = format!("//!@Open: {}\n//!@Location:\nfn bar() {{}}\n", target_path);
    let ned_path = disk.create_file("test_implicit.ned", &ned_script);

    let script_content = disk.read(&ned_path).unwrap();
    let tokens = Lexer::tokenize(&script_content);
    assert_eq!(tokens.len(), 2); // Open, Location (no Off)

    let commands = ScriptParser::parse(tokens).unwrap();
    let mut engine = Engine::new();
    let result = disk.execute(&mut engine, commands);
    assert!(result.is_ok(), "Implicit Off should succeed: {:?}", result.err());

    let result_content = disk.read(&target_path).unwrap();
    assert_eq!(result_content, target_content);
}

#[test]
fn test_full_pipeline_location_not_found() {
    let mut disk = Disk::new();

    let target_content = "fn foo() {}\nfn bar() {}\n";
    let target_path = disk.create_file("nomatch.rs", target_content);

    let ned_script = format!(
        "//!@Open: {}\n//!@Location:\nfn nonexistent() {{}}\n//!@Off:Open\n",
        target_path
    );
    let ned_path = disk.create_file("test_nomatch.ned", &ned_script);

    let script_content = disk.read(&ned_path).unwrap();
    let tokens = Lexer::tokenize(&script_content);
    let commands = ScriptParser::parse(tokens).unwrap();

    let mut engine = Engine::new();
    let result = disk.execute(&mut engine, commands);
    assert!(result.is_err(), "Should fail for non-matching location");
}

#[test]
fn test_full_pipeline_open_missing_file() {
    let mut disk = Disk::new();
    let tokens = vec![Token::Open {
        file_path: "/nonexistent/file.rs".to_string(),
        line: LineNumber::new(1),
    }];
    let commands = ScriptParser::parse(tokens).unwrap();
    let mut engine = Engine::new();
    let result = disk.execute(&mut engine, commands);
    assert!(result.is_err());
}

#[test]
fn test_location_block_non_parseable_errors() {
    let mut disk = Disk::new();
    let target_path = disk.create_file(
        "plain.txt",
        "This is a plain text file.\nIt has no code structure.\nNo braces, no indentation.\nJust some random content.\nAnd more text.\n",
    );

    let script = format!(
        "//!@Open: {}\n//!@Location:Block\nThis is a plain text file.\n//!@Off:Open\n",
        target_path
    );

    let commands = ScriptParser::parse(Lexer::tokenize(&script)).unwrap();
    let mut engine = Engine::new();
    let result = disk.execute(&mut engine, commands);
    assert!(
        result.is_err(),
        "Location:Block on plain text should fail with BlockNotParseable"
    );
}

#[test]
fn pipeline_new_then_off_writes_the_edit() {
    let mut disk = Disk::new();
    let target_path = disk.create_file("edit.rs", "fn main() {\n    old();\n}\n");
    let script = format!(
        "//!@Open: {}\n//!@Location:\nfn main() {{\n//!@Delete:\n    old();\n//!@New:\n    new();\n...\n//!@Off:Open\n",
        target_path
    );
    let commands = ScriptParser::parse(Lexer::tokenize(&script)).unwrap();
    let mut engine = Engine::new();
    disk.execute(&mut engine, commands).unwrap();
    assert_eq!(disk.read(&target_path).unwrap(), "fn main() {\n    new();\n}\n");
}

#[test]
fn pipeline_reading_run_writes_back_the_same_text() {
    let mut disk = Disk::new();
    let text = "impl Foo {\n    fn bar() {\n        work();\n    }\n}\n\nfn main() {}\n";
    let target_path = disk.create_file("read.rs", text);
    let script = format!(
        "//!@Open: {}\n//!@Location:Block\nimpl Foo {{\n//!@Location:\n    fn bar() {{\n//!@Off:Location\n//!@Off:Location\n//!@Location:@7\n//!@Off:Location\n//!@Location:\n//!@Off:Open\n",
        target_path
    );
    let commands = ScriptParser::parse(Lexer::tokenize(&script)).unwrap();
    let mut engine = Engine::new();
    disk.execute(&mut engine, commands).unwrap();
    assert!(engine.block_stack.is_empty());
    assert!(engine.diff_lines.is_empty());
    assert_eq!(disk.read(&target_path).unwrap(), text);
}

#[test]
fn pipeline_run_without_closing_ends_with_no_block_open() {
    let mut disk = Disk::new();
    let target_path = disk.create_file("open.rs", "fn a() {\n    x();\n}\n");
    let script = format!(
        "//!@Open: {}\n//!@Location:\nfn a() {{\n//!@New:\n    y();\n",
        target_path
    );
    let commands = ScriptParser::parse(Lexer::tokenize(&script)).unwrap();
    let mut engine = Engine::new();
    disk.execute(&mut engine, commands).unwrap();
    assert!(engine.block_stack.is_empty());
    assert_eq!(disk.read(&target_path).unwrap(), "fn a() {\n    y();\n    x();\n}\n");
}

#[test]
fn pipeline_implicit_close_writes_the_last_opened_file() {
    let mut disk = Disk::new();
    let first = disk.create_file("first.rs", "fn a() {}\n");
    let second = disk.create_file("second.rs", "fn b() {\n}\n");
    let script = format!(
        "//!@Open: {}\n//!@Location:\nfn a() {{}}\n//!@Off:Open\n//!@Open: {}\n//!@Location:\nfn b() {{\n//!@New:\n    c();\n",
        first, second
    );
    let commands = ScriptParser::parse(Lexer::tokenize(&script)).unwrap();
    let mut engine = Engine::new();
    disk.execute(&mut engine, commands).unwrap();
    assert!(engine.block_stack.is_empty());
    assert_eq!(engine.file_path.as_deref(), Some(second.as_str()));
    assert_eq!(disk.read(&first).unwrap(), "fn a() {}\n");
    assert_eq!(disk.read(&second).unwrap(), "fn b() {\n    c();\n}\n");
}
