//! Error types of every stage, with the title, detail and hints that the
//! command-line front end prints for them.
use crate::model::LineNumber;
use crate::text::{decimal, push_decimal, push_text};
use vstd::prelude::*;

verus! {

/// The root error type.
#[derive(Debug)]
pub enum NEditError {
    /// a matching error
    Match(MatchError),
    /// a script parse error
    Parse(ParseError),
    /// a file I/O error
    File(FileError),
    /// an engine error
    Engine(EngineError),
}

/// Errors while locating or deleting content.
#[derive(Debug)]
pub enum MatchError {
    /// nothing matched
    NoMatch { location_content: String },
    /// more than one place matched
    TooManyMatches {
        count: usize,
        /// descriptions of the first candidates
        candidates: Vec<String>,
        location_content: String,
    },
    /// the lines to delete were not found
    DeleteMatchFailed { delete_content: String, block_snippet: String },
    /// the lines to delete do not follow the located lines
    DeleteNotAdjacent { location_last_line: String, delete_first_line: String, gap_lines: usize },
    /// `Location:Block` on content that is no code block
    BlockNotParseable { location_content: String },
}

/// Errors in the script itself.
#[derive(Debug)]
pub enum ParseError {
    MissingFilePath,
    UnknownCommand { token: String, line: LineNumber },
    MissingLocation { command: String, line: LineNumber },
    UnexpectedSeparator { line: LineNumber },
    BlockRequiredForDelete { line: LineNumber },
}

/// File I/O errors.
#[derive(Debug)]
pub enum FileError {
    NotFound { path: String },
    CannotOpen { path: String, reason: String },
    WriteFailed { path: String, reason: String },
}

/// Errors of the execution engine.
#[derive(Debug)]
pub enum EngineError {
    /// `New`/`Delete` with no block on the stack
    MissingLocationForNew,
    BlockRequiredForDelete,
    /// `Off:Location` with an empty stack
    BlockStackEmpty,
    ImplicitOffFailed { reason: String },
}


/// The views of a list of string slices.
pub open spec fn strs(v: Seq<&str>) -> Seq<Seq<char>> {
    Seq::new(v.len(), |i: int| v[i]@)
}

/// The views of a list of strings.
pub open spec fn strings(v: Seq<String>) -> Seq<Seq<char>> {
    Seq::new(v.len(), |i: int| v[i]@)
}

/// Each candidate followed by a line feed.
pub open spec fn listed(items: Seq<Seq<char>>) -> Seq<char>
    decreases items.len(),
{
    if items.len() == 0 { Seq::empty() } else { listed(items.drop_last()) + items.last() + "\n"@ }
}

fn owned(s: &str) -> (res: String)
    ensures
        res@ == s@,
{
    String::from_str(s)
}

fn list_of(items: &[&'static str]) -> (res: Vec<&'static str>)
    ensures
        res@ == items@,
{
    let mut v: Vec<&'static str> = Vec::new();
    let mut i: usize = 0;
    while i < items.len()
        invariant
            i <= items@.len(),
            v@ == items@.take(i as int),
        decreases items@.len() - i,
    {
        v.push(items[i]);
        assert(v@ =~= items@.take(i + 1));
        i = i + 1;
    }
    assert(items@.take(items@.len() as int) =~= items@);
    v
}

pub open spec fn match_title(e: MatchError) -> Seq<char> {
    match e {
        MatchError::NoMatch { .. } => "Location 命令未找到任何匹配"@,
        MatchError::TooManyMatches { count, .. } => "Location 命令匹配到 "@ + decimal(count as nat) + " 个结果（期望 1 个）"@,
        MatchError::DeleteMatchFailed { .. } => "Delete 命令未能在当前 Block 中找到匹配内容"@,
        MatchError::DeleteNotAdjacent { gap_lines, .. } => "Delete 匹配位置与 Location 不紧邻（中间隔了 "@
            + decimal(gap_lines as nat) + " 行未经定位的内容）"@,
        MatchError::BlockNotParseable { .. } => "Location:Block 指定但提供内容无法解析为一个 Block"@,
    }
}

pub open spec fn match_detail(e: MatchError) -> Seq<char> {
    match e {
        MatchError::NoMatch { location_content } => "定位内容:\n"@ + location_content@,
        MatchError::TooManyMatches { candidates, location_content, .. } => "Location 内容:\n"@ + location_content@
            + "\n匹配候选:\n"@ + listed(strings(candidates@)),
        MatchError::DeleteMatchFailed { delete_content, block_snippet } => "删除内容首行: "@ + delete_content@
            + "\nBlock 内容:\n"@ + block_snippet@,
        MatchError::DeleteNotAdjacent { location_last_line, delete_first_line, .. } => "Location 最后一行: "@
            + location_last_line@ + "\nDelete 首行: "@ + delete_first_line@,
        MatchError::BlockNotParseable { location_content } => "定位内容:\n"@ + location_content@,
    }
}

pub open spec fn match_hints(e: MatchError) -> Seq<Seq<char>> {
    match e {
        MatchError::NoMatch { .. } => seq![
            "请检查定位内容的字符拼写是否与目标文件中的内容一致（忽略空格差异）"@,
            "您可以使用行号定位绕过匹配: //!@Location:@行号"@,
        ],
        MatchError::TooManyMatches { .. } => seq![
            "请提供更多的上下文行来消除歧义，使匹配结果唯一"@,
            "如果定位内容的结构重复出现，可以先用行号定位到外层范围，再用嵌套 Location 精确定位"@,
            "或直接使用行号定位: //!@Location:@起始行号,结束行号"@,
        ],
        MatchError::DeleteMatchFailed { .. } => seq![
            "请确认删除内容与当前 ContentBlock 中的内容精确匹配（忽略空格差异）"@,
            "建议在 Delete 之前使用嵌套 Location 精确定位到要删除的内容"@,
            "也可以使用行号 Delete 直接指定要删除的行范围: //!@Delete:@起始行,结束行"@,
        ],
        MatchError::DeleteNotAdjacent { .. } => seq![
            "建议在 Delete 之前使用嵌套 Location 精确定位到要删除的代码块"@,
            "确保 Delete 紧随 Location 的最后一行，中间不应有其他代码"@,
        ],
        MatchError::BlockNotParseable { .. } => seq![
            "对于纯文本或 Markdown 等不适用大括号/缩进块的语言，请使用不带 Block 的 Location"@,
            "或者使用行号定位来精确指定范围: //!@Location:Block@起始行,结束行"@,
        ],
    }
}

impl MatchError {
    /// Short description.
    pub fn title(&self) -> (res: String)
        ensures
            res@ == match_title(*self),
    {
        match self {
            MatchError::NoMatch { .. } => owned("Location 命令未找到任何匹配"),
            MatchError::TooManyMatches { count, .. } => {
                let mut s = owned("Location 命令匹配到 ");
                push_decimal(&mut s, *count);
                push_text(&mut s, " 个结果（期望 1 个）");
                s
            },
            MatchError::DeleteMatchFailed { .. } => owned("Delete 命令未能在当前 Block 中找到匹配内容"),
            MatchError::DeleteNotAdjacent { gap_lines, .. } => {
                let mut s = owned("Delete 匹配位置与 Location 不紧邻（中间隔了 ");
                push_decimal(&mut s, *gap_lines);
                push_text(&mut s, " 行未经定位的内容）");
                s
            },
            MatchError::BlockNotParseable { .. } => owned("Location:Block 指定但提供内容无法解析为一个 Block"),
        }
    }

    /// The content the error is about.
    pub fn detail(&self) -> (res: String)
        ensures
            res@ == match_detail(*self),
    {
        match self {
            MatchError::NoMatch { location_content } => {
                let mut s = owned("定位内容:\n");
                push_text(&mut s, location_content.as_str());
                s
            },
            MatchError::TooManyMatches { candidates, location_content, .. } => {
                let mut s = owned("Location 内容:\n");
                push_text(&mut s, location_content.as_str());
                push_text(&mut s, "\n匹配候选:\n");
                let ghost head = s@;
                let mut i: usize = 0;
                while i < candidates.len()
                    invariant
                        i <= candidates@.len(),
                        s@ == head + listed(strings(candidates@.take(i as int))),
                    decreases candidates@.len() - i,
                {
                    assert(strings(candidates@.take(i + 1)).drop_last() =~= strings(candidates@.take(i as int)));
                    push_text(&mut s, candidates[i].as_str());
                    push_text(&mut s, "\n");
                    i = i + 1;
                }
                assert(candidates@.take(candidates@.len() as int) =~= candidates@);
                s
            },
            MatchError::DeleteMatchFailed { delete_content, block_snippet } => {
                let mut s = owned("删除内容首行: ");
                push_text(&mut s, delete_content.as_str());
                push_text(&mut s, "\nBlock 内容:\n");
                push_text(&mut s, block_snippet.as_str());
                s
            },
            MatchError::DeleteNotAdjacent { location_last_line, delete_first_line, .. } => {
                let mut s = owned("Location 最后一行: ");
                push_text(&mut s, location_last_line.as_str());
                push_text(&mut s, "\nDelete 首行: ");
                push_text(&mut s, delete_first_line.as_str());
                s
            },
            MatchError::BlockNotParseable { location_content } => {
                let mut s = owned("定位内容:\n");
                push_text(&mut s, location_content.as_str());
                s
            },
        }
    }

    /// Suggestions for fixing the script.
    pub fn hints(&self) -> (res: Vec<&'static str>)
        ensures
            strs(res@) == match_hints(*self),
    {
        let res = match self {
            MatchError::NoMatch { .. } => list_of(&[
                "请检查定位内容的字符拼写是否与目标文件中的内容一致（忽略空格差异）",
                "您可以使用行号定位绕过匹配: //!@Location:@行号",
            ]),
            MatchError::TooManyMatches { .. } => list_of(&[
                "请提供更多的上下文行来消除歧义，使匹配结果唯一",
                "如果定位内容的结构重复出现，可以先用行号定位到外层范围，再用嵌套 Location 精确定位",
                "或直接使用行号定位: //!@Location:@起始行号,结束行号",
            ]),
            MatchError::DeleteMatchFailed { .. } => list_of(&[
                "请确认删除内容与当前 ContentBlock 中的内容精确匹配（忽略空格差异）",
                "建议在 Delete 之前使用嵌套 Location 精确定位到要删除的内容",
                "也可以使用行号 Delete 直接指定要删除的行范围: //!@Delete:@起始行,结束行",
            ]),
            MatchError::DeleteNotAdjacent { .. } => list_of(&[
                "建议在 Delete 之前使用嵌套 Location 精确定位到要删除的代码块",
                "确保 Delete 紧随 Location 的最后一行，中间不应有其他代码",
            ]),
            MatchError::BlockNotParseable { .. } => list_of(&[
                "对于纯文本或 Markdown 等不适用大括号/缩进块的语言，请使用不带 Block 的 Location",
                "或者使用行号定位来精确指定范围: //!@Location:Block@起始行,结束行",
            ]),
        };
        assert(strs(res@) =~= match_hints(*self));
        res
    }

    /// What `Display` prints: the title, a line feed, the detail.
    pub fn display_text(&self) -> (res: String)
        ensures
            res@ == match_title(*self) + "\n"@ + match_detail(*self),
    {
        let mut s = self.title();
        push_text(&mut s, "\n");
        let d = self.detail();
        push_text(&mut s, d.as_str());
        s
    }
}


pub open spec fn parse_title(e: ParseError) -> Seq<char> {
    match e {
        ParseError::MissingFilePath => "Open 命令缺少文件路径参数"@,
        ParseError::UnknownCommand { token, line } => "第 "@ + decimal(line.0 as nat) + " 行出现无法识别的命令: "@ + token@,
        ParseError::MissingLocation { command, line } => "第 "@ + decimal(line.0 as nat) + " 行: "@ + command@
            + " 命令前缺少 Location 定位"@,
        ParseError::UnexpectedSeparator { line } => "第 "@ + decimal(line.0 as nat) + " 行出现意外的分隔符 ..."@,
        ParseError::BlockRequiredForDelete { line } => "第 "@ + decimal(line.0 as nat)
            + " 行: Delete:Block 要求前一个 Location 也使用 Block 指令"@,
    }
}

pub open spec fn parse_detail(e: ParseError) -> Seq<char> {
    match e {
        ParseError::MissingFilePath => "Open 命令需要一个文件路径参数，格式: //!@Open: <路径>"@,
        ParseError::UnknownCommand { token, .. } => "无法识别的命令: \""@ + token@ + "\"，请检查命令拼写"@,
        ParseError::MissingLocation { .. } => "`...` 分隔符导致了插入/删除位置不明确。请在此命令之前使用 Location 明确指定操作位置。"@,
        ParseError::UnexpectedSeparator { .. } => "分隔符 `...` 出现在非预期位置，这可能破坏了命令流。"@,
        ParseError::BlockRequiredForDelete { .. } => "使用 Delete:Block 时，前一个 Location 也必须指定 Block 指令（Location:Block），以确保删除的是整个代码块而非不确定的范围。"@,
    }
}

pub open spec fn parse_hints(e: ParseError) -> Seq<Seq<char>> {
    match e {
        ParseError::MissingFilePath => seq!["在 Open 后添加文件路径，例如: //!@Open: ./src/main.rs"@],
        ParseError::UnknownCommand { .. } => seq![
            "支持的命令: Open, Location, New, Delete, Raw, Off"@,
            "命令不区分大小写，检查是否有拼写错误"@,
        ],
        ParseError::MissingLocation { command, .. } => if command@ == "New"@ {
            seq![
                "在 New 之前添加 //!@Location: ... 来指定操作范围"@,
                "或者使用 New:Start / New:End 直接在文件首尾插入"@,
            ]
        } else {
            seq![
                "在 Delete 之前添加 //!@Location: ... 来指定操作范围"@,
                "可以先使用嵌套 Location 精确定位到要删除的内容"@,
            ]
        },
        ParseError::UnexpectedSeparator { .. } => seq!["检查 `...` 分隔符是否正确放置在 Location/New/Delete 内容之后"@],
        ParseError::BlockRequiredForDelete { .. } => seq![
            "将前一个 Location 改为 Location:Block"@,
            "或移除 Delete 的 Block 修饰符"@,
        ],
    }
}

/// `第 <line> 行` followed by `rest`.
fn at_line(line: LineNumber, rest: &str) -> (res: String)
    ensures
        res@ == "第 "@ + decimal(line.0 as nat) + rest@,
{
    let mut s = owned("第 ");
    push_decimal(&mut s, line.0);
    push_text(&mut s, rest);
    s
}

impl ParseError {
    /// Short description, with the script line it concerns.
    pub fn title(&self) -> (res: String)
        ensures
            res@ == parse_title(*self),
    {
        match self {
            ParseError::MissingFilePath => owned("Open 命令缺少文件路径参数"),
            ParseError::UnknownCommand { token, line } => {
                let mut s = at_line(*line, " 行出现无法识别的命令: ");
                push_text(&mut s, token.as_str());
                s
            },
            ParseError::MissingLocation { command, line } => {
                let mut s = at_line(*line, " 行: ");
                push_text(&mut s, command.as_str());
                push_text(&mut s, " 命令前缺少 Location 定位");
                s
            },
            ParseError::UnexpectedSeparator { line } => at_line(*line, " 行出现意外的分隔符 ..."),
            ParseError::BlockRequiredForDelete { line } => at_line(
                *line,
                " 行: Delete:Block 要求前一个 Location 也使用 Block 指令",
            ),
        }
    }

    /// Explanation of the error.
    pub fn detail(&self) -> (res: String)
        ensures
            res@ == parse_detail(*self),
    {
        match self {
            ParseError::MissingFilePath => owned("Open 命令需要一个文件路径参数，格式: //!@Open: <路径>"),
            ParseError::UnknownCommand { token, .. } => {
                let mut s = owned("无法识别的命令: \"");
                push_text(&mut s, token.as_str());
                push_text(&mut s, "\"，请检查命令拼写");
                s
            },
            ParseError::MissingLocation { .. } => owned(
                "`...` 分隔符导致了插入/删除位置不明确。请在此命令之前使用 Location 明确指定操作位置。",
            ),
            ParseError::UnexpectedSeparator { .. } => owned("分隔符 `...` 出现在非预期位置，这可能破坏了命令流。"),
            ParseError::BlockRequiredForDelete { .. } => owned(
                "使用 Delete:Block 时，前一个 Location 也必须指定 Block 指令（Location:Block），以确保删除的是整个代码块而非不确定的范围。",
            ),
        }
    }

    /// Suggestions for fixing the script.
    pub fn hints(&self) -> (res: Vec<&'static str>)
        ensures
            strs(res@) == parse_hints(*self),
    {
        let res = match self {
            ParseError::MissingFilePath => list_of(&["在 Open 后添加文件路径，例如: //!@Open: ./src/main.rs"]),
            ParseError::UnknownCommand { .. } => list_of(&[
                "支持的命令: Open, Location, New, Delete, Raw, Off",
                "命令不区分大小写，检查是否有拼写错误",
            ]),
            ParseError::MissingLocation { command, .. } => {
                let new_word = owned("New");
                if command.eq(&new_word) {
                    list_of(&[
                        "在 New 之前添加 //!@Location: ... 来指定操作范围",
                        "或者使用 New:Start / New:End 直接在文件首尾插入",
                    ])
                } else {
                    list_of(&[
                        "在 Delete 之前添加 //!@Location: ... 来指定操作范围",
                        "可以先使用嵌套 Location 精确定位到要删除的内容",
                    ])
                }
            },
            ParseError::UnexpectedSeparator { .. } => list_of(&["检查 `...` 分隔符是否正确放置在 Location/New/Delete 内容之后"]),
            ParseError::BlockRequiredForDelete { .. } => list_of(&[
                "将前一个 Location 改为 Location:Block",
                "或移除 Delete 的 Block 修饰符",
            ]),
        };
        assert(strs(res@) =~= parse_hints(*self));
        res
    }

    /// What `Display` prints: the title, a line feed, the detail.
    pub fn display_text(&self) -> (res: String)
        ensures
            res@ == parse_title(*self) + "\n"@ + parse_detail(*self),
    {
        let mut s = self.title();
        push_text(&mut s, "\n");
        let d = self.detail();
        push_text(&mut s, d.as_str());
        s
    }
}

pub open spec fn file_title(e: FileError) -> Seq<char> {
    match e {
        FileError::NotFound { path } => "文件未找到: "@ + path@,
        FileError::CannotOpen { path, .. } => "无法打开文件: "@ + path@,
        FileError::WriteFailed { path, .. } => "写入文件失败: "@ + path@,
    }
}

pub open spec fn file_detail(e: FileError) -> Seq<char> {
    match e {
        FileError::NotFound { .. } => "请确认文件路径是否正确，文件是否存在。"@,
        FileError::CannotOpen { reason, .. } => "原因: "@ + reason@,
        FileError::WriteFailed { reason, .. } => "原因: "@ + reason@,
    }
}

pub open spec fn file_hints(e: FileError) -> Seq<Seq<char>> {
    match e {
        FileError::NotFound { .. } => seq!["检查路径拼写是否正确"@, "使用相对路径时确认当前工作目录"@, "确保文件扩展名正确"@],
        FileError::CannotOpen { .. } => seq!["检查文件权限是否正确"@, "确认文件没有被其他程序占用"@],
        FileError::WriteFailed { .. } => seq!["检查目标目录的写入权限"@, "确认磁盘空间充足"@],
    }
}

/// `head` followed by `tail`.
fn joined(head: &str, tail: &str) -> (res: String)
    ensures
        res@ == head@ + tail@,
{
    let mut s = owned(head);
    push_text(&mut s, tail);
    s
}

impl FileError {
    /// Short description with the path.
    pub fn title(&self) -> (res: String)
        ensures
            res@ == file_title(*self),
    {
        match self {
            FileError::NotFound { path } => joined("文件未找到: ", path.as_str()),
            FileError::CannotOpen { path, .. } => joined("无法打开文件: ", path.as_str()),
            FileError::WriteFailed { path, .. } => joined("写入文件失败: ", path.as_str()),
        }
    }

    /// The reason of the failure.
    pub fn detail(&self) -> (res: String)
        ensures
            res@ == file_detail(*self),
    {
        match self {
            FileError::NotFound { .. } => owned("请确认文件路径是否正确，文件是否存在。"),
            FileError::CannotOpen { reason, .. } => joined("原因: ", reason.as_str()),
            FileError::WriteFailed { reason, .. } => joined("原因: ", reason.as_str()),
        }
    }

    /// Suggestions for fixing the problem.
    pub fn hints(&self) -> (res: Vec<&'static str>)
        ensures
            strs(res@) == file_hints(*self),
    {
        let res = match self {
            FileError::NotFound { .. } => list_of(&["检查路径拼写是否正确", "使用相对路径时确认当前工作目录", "确保文件扩展名正确"]),
            FileError::CannotOpen { .. } => list_of(&["检查文件权限是否正确", "确认文件没有被其他程序占用"]),
            FileError::WriteFailed { .. } => list_of(&["检查目标目录的写入权限", "确认磁盘空间充足"]),
        };
        assert(strs(res@) =~= file_hints(*self));
        res
    }

    /// What `Display` prints: the title, a line feed, the detail.
    pub fn display_text(&self) -> (res: String)
        ensures
            res@ == file_title(*self) + "\n"@ + file_detail(*self),
    {
        let mut s = self.title();
        push_text(&mut s, "\n");
        let d = self.detail();
        push_text(&mut s, d.as_str());
        s
    }
}

pub open spec fn engine_title(e: EngineError) -> Seq<char> {
    match e {
        EngineError::MissingLocationForNew => "New/Delete 命令之前必须存在 Location 命令"@,
        EngineError::BlockRequiredForDelete => "Delete:Block 要求前一个 Location 也使用 Block 指令"@,
        EngineError::BlockStackEmpty => "Block 栈为空，无法执行 Off 操作"@,
        EngineError::ImplicitOffFailed { .. } => "隐式 Off:Open 执行失败"@,
    }
}

pub open spec fn engine_detail(e: EngineError) -> Seq<char> {
    match e {
        EngineError::ImplicitOffFailed { reason } => reason@,
        _ => Seq::empty(),
    }
}

pub open spec fn engine_hints(e: EngineError) -> Seq<Seq<char>> {
    match e {
        EngineError::MissingLocationForNew => seq![
            "在执行 New/Delete 前，请先使用 Location 定位到目标代码块"@,
            "或在文件首尾直接插入，使用 New:Start / New:End"@,
        ],
        EngineError::BlockRequiredForDelete => seq!["将前一个 Location 改为 Location:Block"@],
        EngineError::BlockStackEmpty => seq!["检查 Off 命令是否与 Location 正确配对"@],
        EngineError::ImplicitOffFailed { .. } => seq!["检查文件是否在脚本执行过程中被修改或删除"@],
    }
}

impl EngineError {
    /// Short description.
    pub fn title(&self) -> (res: String)
        ensures
            res@ == engine_title(*self),
    {
        match self {
            EngineError::MissingLocationForNew => owned("New/Delete 命令之前必须存在 Location 命令"),
            EngineError::BlockRequiredForDelete => owned("Delete:Block 要求前一个 Location 也使用 Block 指令"),
            EngineError::BlockStackEmpty => owned("Block 栈为空，无法执行 Off 操作"),
            EngineError::ImplicitOffFailed { .. } => owned("隐式 Off:Open 执行失败"),
        }
    }

    /// The reason, where the error carries one; empty otherwise.
    pub fn detail(&self) -> (res: String)
        ensures
            res@ == engine_detail(*self),
    {
        match self {
            EngineError::ImplicitOffFailed { reason } => reason.clone(),
            _ => String::new(),
        }
    }

    /// Suggestions for fixing the script.
    pub fn hints(&self) -> (res: Vec<&'static str>)
        ensures
            strs(res@) == engine_hints(*self),
    {
        let res = match self {
            EngineError::MissingLocationForNew => list_of(&[
                "在执行 New/Delete 前，请先使用 Location 定位到目标代码块",
                "或在文件首尾直接插入，使用 New:Start / New:End",
            ]),
            EngineError::BlockRequiredForDelete => list_of(&["将前一个 Location 改为 Location:Block"]),
            EngineError::BlockStackEmpty => list_of(&["检查 Off 命令是否与 Location 正确配对"]),
            EngineError::ImplicitOffFailed { .. } => list_of(&["检查文件是否在脚本执行过程中被修改或删除"]),
        };
        assert(strs(res@) =~= engine_hints(*self));
        res
    }

    /// What `Display` prints: the title, a line feed, the detail.
    pub fn display_text(&self) -> (res: String)
        ensures
            res@ == engine_title(*self) + "\n"@ + engine_detail(*self),
    {
        let mut s = self.title();
        push_text(&mut s, "\n");
        let d = self.detail();
        push_text(&mut s, d.as_str());
        s
    }
}

pub open spec fn nedit_title(e: NEditError) -> Seq<char> {
    match e {
        NEditError::Match(m) => match_title(m),
        NEditError::Parse(p) => parse_title(p),
        NEditError::File(f) => file_title(f),
        NEditError::Engine(g) => engine_title(g),
    }
}

pub open spec fn nedit_detail(e: NEditError) -> Seq<char> {
    match e {
        NEditError::Match(m) => match_detail(m),
        NEditError::Parse(p) => parse_detail(p),
        NEditError::File(f) => file_detail(f),
        NEditError::Engine(g) => engine_detail(g),
    }
}

pub open spec fn nedit_hints(e: NEditError) -> Seq<Seq<char>> {
    match e {
        NEditError::Match(m) => match_hints(m),
        NEditError::Parse(p) => parse_hints(p),
        NEditError::File(f) => file_hints(f),
        NEditError::Engine(g) => engine_hints(g),
    }
}

impl NEditError {
    /// Title of the wrapped error.
    pub fn title(&self) -> (res: String)
        ensures
            res@ == nedit_title(*self),
    {
        match self {
            NEditError::Match(e) => e.title(),
            NEditError::Parse(e) => e.title(),
            NEditError::File(e) => e.title(),
            NEditError::Engine(e) => e.title(),
        }
    }

    /// Detail of the wrapped error.
    pub fn detail(&self) -> (res: String)
        ensures
            res@ == nedit_detail(*self),
    {
        match self {
            NEditError::Match(e) => e.detail(),
            NEditError::Parse(e) => e.detail(),
            NEditError::File(e) => e.detail(),
            NEditError::Engine(e) => e.detail(),
        }
    }

    /// Hints of the wrapped error.
    pub fn hints(&self) -> (res: Vec<&'static str>)
        ensures
            strs(res@) == nedit_hints(*self),
    {
        match self {
            NEditError::Match(e) => e.hints(),
            NEditError::Parse(e) => e.hints(),
            NEditError::File(e) => e.hints(),
            NEditError::Engine(e) => e.hints(),
        }
    }

    /// What `Display` prints: that of the wrapped error.
    pub fn display_text(&self) -> (res: String)
        ensures
            res@ == nedit_title(*self) + "\n"@ + nedit_detail(*self),
    {
        match self {
            NEditError::Match(e) => e.display_text(),
            NEditError::Parse(e) => e.display_text(),
            NEditError::File(e) => e.display_text(),
            NEditError::Engine(e) => e.display_text(),
        }
    }
}

} // verus!
