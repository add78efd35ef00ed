use n_edit::error::{EngineError, FileError, MatchError, NEditError, ParseError};
use n_edit::model::LineNumber;

#[test]
fn too_many_matches_lists_candidates() {
    let err = MatchError::TooManyMatches {
        count: 4,
        candidates: vec!["  L1: a".to_string(), "  L2: a".to_string()],
        location_content: "a".to_string(),
    };
    assert_eq!(err.title(), "Location 命令匹配到 4 个结果（期望 1 个）");
    assert_eq!(err.detail(), "Location 内容:\na\n匹配候选:\n  L1: a\n  L2: a\n");
    assert_eq!(err.hints().len(), 3);
}

#[test]
fn delete_not_adjacent_counts_gap_lines() {
    let err = MatchError::DeleteNotAdjacent {
        location_last_line: "fn main() {".to_string(),
        delete_first_line: "    x();".to_string(),
        gap_lines: 2,
    };
    assert_eq!(err.title(), "Delete 匹配位置与 Location 不紧邻（中间隔了 2 行未经定位的内容）");
    assert_eq!(err.detail(), "Location 最后一行: fn main() {\nDelete 首行:     x();");
}

#[test]
fn parse_error_titles_name_the_line() {
    let err = ParseError::UnknownCommand {
        token: "Foo".to_string(),
        line: LineNumber::new(12),
    };
    assert_eq!(err.title(), "第 12 行出现无法识别的命令: Foo");
    assert_eq!(err.detail(), "无法识别的命令: \"Foo\"，请检查命令拼写");
    let err = ParseError::UnexpectedSeparator { line: LineNumber::new(3) };
    assert_eq!(err.title(), "第 3 行出现意外的分隔符 ...");
    let err = ParseError::BlockRequiredForDelete { line: LineNumber::new(7) };
    assert_eq!(err.title(), "第 7 行: Delete:Block 要求前一个 Location 也使用 Block 指令");
}

#[test]
fn missing_location_hints_depend_on_the_command() {
    let new_err = ParseError::MissingLocation {
        command: "New".to_string(),
        line: LineNumber::new(5),
    };
    assert_eq!(new_err.title(), "第 5 行: New 命令前缺少 Location 定位");
    assert_eq!(new_err.hints()[1], "或者使用 New:Start / New:End 直接在文件首尾插入");
    let delete_err = ParseError::MissingLocation {
        command: "Delete".to_string(),
        line: LineNumber::new(5),
    };
    assert_eq!(delete_err.hints()[1], "可以先使用嵌套 Location 精确定位到要删除的内容");
}

#[test]
fn file_errors_report_the_reason() {
    let err = FileError::WriteFailed {
        path: "out.rs".to_string(),
        reason: "disk full".to_string(),
    };
    assert_eq!(err.detail(), "原因: disk full");
    assert_eq!(err.hints(), vec!["检查目标目录的写入权限", "确认磁盘空间充足"]);
    let err = FileError::CannotOpen {
        path: "in.rs".to_string(),
        reason: "permission denied".to_string(),
    };
    assert_eq!(err.detail(), "原因: permission denied");
}

#[test]
fn engine_errors_have_fixed_texts() {
    assert_eq!(EngineError::BlockStackEmpty.title(), "Block 栈为空，无法执行 Off 操作");
    assert_eq!(EngineError::BlockStackEmpty.detail(), "");
    assert_eq!(EngineError::BlockRequiredForDelete.hints(), vec!["将前一个 Location 改为 Location:Block"]);
    let err = EngineError::ImplicitOffFailed { reason: "gone".to_string() };
    assert_eq!(err.title(), "隐式 Off:Open 执行失败");
    assert_eq!(err.detail(), "gone");
}

#[test]
fn root_error_forwards_to_the_stage_error() {
    let inner = MatchError::NoMatch {
        location_content: "fn x()".to_string(),
    };
    let expected_title = inner.title();
    let expected_detail = inner.detail();
    let err = NEditError::Match(inner);
    assert_eq!(err.title(), expected_title);
    assert_eq!(err.detail(), expected_detail);
    assert_eq!(err.display_text(), format!("{}\n{}", expected_title, expected_detail));
    assert_eq!(err.detail(), "定位内容:\nfn x()");
}
