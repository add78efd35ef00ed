//! The execution engine: a state machine that consumes script commands in
//! order. `Open` loads a file, `Location` pushes the block it locates onto
//! a stack, `New` / `Delete` edit the innermost block, and `Off` merges
//! blocks back into their parents and finally into the file, whose text
//! is then written back. Every change is recorded as diff lines.
//!
//! Reading and writing files is left to the caller: `run_command` and
//! `finish` say which file to read or which text to write.
use crate::command::{Command, NewPosition, OffTarget};
use crate::error::{EngineError, FileError, MatchError, NEditError};
use crate::matcher::{is_whole_scope, located, ranged, LocationMatcher};
use crate::model::{
    contents, copy_lines, fresh_lines, idx_of, joined_text, BlockView, reindex_lines, reindexed, sat_sub, ContentBlock, DeleteContent, DeleteLine,
    FileContent, Line, LineNumber, LineRange, LocationContent, MatchInfo, NewContent, NewLine,
    SearchScope, BLOCK_SNIPPET_MAX_LINES,
};
use crate::output::{DiffLine, DiffLineKind, CONTEXT_MAX_LINES};
use crate::text::{
    abbreviate, abbreviated, blank, count_spaces, decimal, is_blank,
    push_decimal, text_lines, join_with, leading_spaces, lemma_join_step, push_char, push_text,
    strip_whitespace, strip_ws,
};
use vstd::prelude::*;

verus! {

// ------------------------------------------------------------------
// Matching the lines of a `Delete`
// ------------------------------------------------------------------

/// A block line and a `Delete` line agree: both blank, or both non-blank
/// with the same whitespace-free content.
pub open spec fn del_row_ok(b: Line, d: DeleteLine) -> bool {
    if is_blank(b.content@) || is_blank(d.content@) {
        is_blank(b.content@) && is_blank(d.content@)
    } else {
        b.stripped_content@ == strip_ws(d.content@)
    }
}

/// Every `Delete` line agrees with the block line at the same offset from
/// `start`: no line may be skipped.
pub open spec fn rows_continue(lines: Seq<Line>, del: Seq<DeleteLine>, start: int) -> bool {
    forall|k: int| 0 <= k < del.len() ==> del_row_ok(lines[start + k], #[trigger] del[k])
}

/// The lines of a `Delete` can be removed starting at line `i`.
pub open spec fn deletes_at(lines: Seq<Line>, del: Seq<DeleteLine>, i: int) -> bool {
    &&& 0 <= i
    &&& i + del.len() <= lines.len()
    &&& lines[i].stripped_content@ == strip_ws(del[0].content@)
    &&& rows_continue(lines, del, i)
}

/// The first place where the `Delete` lines occur, as an inclusive range
/// of positions in the block.
fn find_delete_match(block: &ContentBlock, del_content: &DeleteContent) -> (res: Option<(usize, usize)>)
    ensures
        match res {
            Some((s, e)) => {
                &&& del_content.lines@.len() > 0
                &&& deletes_at(block.lines@, del_content.lines@, s as int)
                &&& e == s + del_content.lines@.len() - 1
                &&& forall|i: int| 0 <= i < s ==> !deletes_at(block.lines@, del_content.lines@, i)
            },
            None => del_content.lines@.len() == 0 || forall|i: int|
                0 <= i < block.lines@.len() ==> !deletes_at(block.lines@, del_content.lines@, i),
        },
{
    let del_lines = &del_content.lines;
    if del_lines.len() == 0 || block.lines.len() == 0 {
        return None;
    }
    let first_del_stripped = strip_whitespace(del_lines[0].content.as_str());
    let mut start_idx: usize = 0;
    while start_idx < block.lines.len()
        invariant
            start_idx <= block.lines@.len(),
            del_lines@ == del_content.lines@,
            del_lines@.len() > 0,
            first_del_stripped@ == strip_ws(del_lines@[0].content@),
            forall|i: int| 0 <= i < start_idx ==> !deletes_at(block.lines@, del_lines@, i),
        decreases block.lines@.len() - start_idx,
    {
        if block.lines[start_idx].stripped_content.eq(&first_del_stripped) && del_lines.len()
            <= block.lines.len() - start_idx {
            if lines_continuously_match(block, del_lines, start_idx) {
                return Some((start_idx, start_idx + del_lines.len() - 1));
            }
        }
        start_idx = start_idx + 1;
    }
    None
}

/// Whether every `Delete` line agrees with the block line at the same
/// offset from `start_idx`.
fn lines_continuously_match(block: &ContentBlock, del_lines: &Vec<DeleteLine>, start_idx: usize) -> (res: bool)
    requires
        start_idx + del_lines@.len() <= block.lines@.len(),
    ensures
        res == rows_continue(block.lines@, del_lines@, start_idx as int),
{
    let n = block.lines.len();
    let mut offset: usize = 0;
    while offset < del_lines.len()
        invariant
            n == block.lines@.len(),
            offset <= del_lines@.len(),
            start_idx + del_lines@.len() <= block.lines@.len(),
            forall|k: int| 0 <= k < offset ==> del_row_ok(block.lines@[start_idx + k], #[trigger] del_lines@[k]),
        decreases del_lines@.len() - offset,
    {
        let block_line = &block.lines[start_idx + offset];
        let del_line = &del_lines[offset];
        let del_stripped = strip_whitespace(del_line.content.as_str());
        let block_is_empty = blank(block_line.content.as_str());
        let del_is_empty = blank(del_line.content.as_str());
        if !(block_is_empty && del_is_empty) {
            if block_is_empty || del_is_empty || !block_line.stripped_content.eq(&del_stripped) {
                assert(!del_row_ok(block.lines@[start_idx + offset], del_lines@[offset as int]));
                return false;
            }
        }
        offset = offset + 1;
    }
    true
}

/// Number of non-blank lines.
pub open spec fn count_nonblank(lines: Seq<Line>) -> nat
    decreases lines.len(),
{
    if lines.len() == 0 {
        0
    } else {
        count_nonblank(lines.drop_last()) + if is_blank(lines.last().content@) { 0nat } else { 1nat }
    }
}

/// How many located lines a block records (0 unless it was located).
pub open spec fn located_count(b: BlockView) -> int {
    match b.match_info {
        MatchInfo::Location { matched_line_count } => matched_line_count as int,
        _ => 0,
    }
}

/// Non-blank lines between the last located line and position `start`.
pub open spec fn gap_before(b: BlockView, start: int) -> nat {
    let m = located_count(b);
    if m > 0 && start > m - 1 {
        count_nonblank(b.lines.subrange(m, start))
    } else {
        0
    }
}

/// The outcome of checking that a `Delete` at `start` follows the located
/// lines with nothing but blank lines between.
pub open spec fn adjacency_checked(res: Result<(), NEditError>, b: BlockView, start: int) -> bool {
    let g = gap_before(b, start);
    if g == 0 {
        res is Ok
    } else {
        res matches Err(NEditError::Match(MatchError::DeleteNotAdjacent { location_last_line, delete_first_line, gap_lines }))
            && location_last_line@ == b.lines[located_count(b) - 1].content@
            && delete_first_line@ == b.lines[start].content@
            && gap_lines == g
    }
}

/// Refuses a `Delete` whose lines are separated from the located lines by
/// non-blank lines: it would likely remove the wrong place.
fn check_delete_adjacency(block: &ContentBlock, start_idx: usize) -> (res: Result<(), NEditError>)
    requires
        start_idx < block.lines@.len(),
    ensures
        adjacency_checked(res, block@, start_idx as int),
{
    match block.match_info {
        MatchInfo::Location { matched_line_count } => {
            if matched_line_count == 0 {
                return Ok(());
            }
            let location_last_idx = matched_line_count - 1;
            if start_idx <= location_last_idx {
                return Ok(());
            }
            let mut gap: usize = 0;
            let mut i: usize = location_last_idx + 1;
            assert(block.lines@.subrange(i as int, i as int) =~= Seq::<Line>::empty());
            while i < start_idx
                invariant
                    location_last_idx + 1 <= i <= start_idx < block.lines@.len(),
                    gap == count_nonblank(block.lines@.subrange(location_last_idx + 1, i as int)),
                    gap <= i - (location_last_idx + 1),
                decreases start_idx - i,
            {
                assert(block.lines@.subrange(location_last_idx + 1, i + 1).drop_last()
                    =~= block.lines@.subrange(location_last_idx + 1, i as int));
                if !blank(block.lines[i].content.as_str()) {
                    gap = gap + 1;
                }
                i = i + 1;
            }
            if gap > 0 {
                Err(NEditError::Match(MatchError::DeleteNotAdjacent {
                    location_last_line: block.lines[location_last_idx].content.clone(),
                    delete_first_line: block.lines[start_idx].content.clone(),
                    gap_lines: gap,
                }))
            } else {
                Ok(())
            }
        },
        _ => Ok(()),
    }
}

/// The first lines of a block that a failed `Delete` report shows.
pub open spec fn snippet_lines(lines: Seq<Line>) -> Seq<Seq<char>> {
    let k = if lines.len() > BLOCK_SNIPPET_MAX_LINES { BLOCK_SNIPPET_MAX_LINES as int } else { lines.len() as int };
    Seq::new(k as nat, |i: int| lines[i].content@)
}

/// The report of a `Delete` whose lines were not found: its first line and
/// the first lines of the block.
fn delete_not_found_error(del_content: &DeleteContent, block: &ContentBlock) -> (res: NEditError)
    ensures
        res matches NEditError::Match(MatchError::DeleteMatchFailed { delete_content, block_snippet })
            && delete_content@ == (if del_content.lines@.len() > 0 {
                del_content.lines@[0].content@
            } else {
                Seq::<char>::empty()
            })
            && block_snippet@ == join_with(snippet_lines(block.lines@), seq!['\n']),
{
    let mut first_del_line = String::new();
    if del_content.lines.len() > 0 {
        push_text(&mut first_del_line, del_content.lines[0].content.as_str());
    }
    let k = if block.lines.len() > BLOCK_SNIPPET_MAX_LINES { BLOCK_SNIPPET_MAX_LINES } else { block.lines.len() };
    let ghost parts = snippet_lines(block.lines@);
    let mut block_snippet = String::new();
    let mut i: usize = 0;
    assert(parts.take(0) =~= Seq::<Seq<char>>::empty());
    while i < k
        invariant
            i <= k <= block.lines@.len(),
            parts == snippet_lines(block.lines@),
            parts.len() == k,
            block_snippet@ == join_with(parts.take(i as int), seq!['\n']),
        decreases k - i,
    {
        if i > 0 {
            proof { lemma_join_step(parts, seq!['\n'], i as int); }
            push_char(&mut block_snippet, '\n');
        } else {
            assert(parts.take(1) =~= seq![parts[0]]);
        }
        push_text(&mut block_snippet, block.lines[i].content.as_str());
        i = i + 1;
    }
    assert(parts.take(k as int) =~= parts);
    NEditError::Match(MatchError::DeleteMatchFailed { delete_content: first_del_line, block_snippet })
}

// ------------------------------------------------------------------
// Diff lines
// ------------------------------------------------------------------

/// The lines as diff lines of one kind, with their numbers.
pub open spec fn diff_of(lines: Seq<Line>, kind: DiffLineKind) -> Seq<DiffLine> {
    Seq::new(
        lines.len(),
        |i: int| DiffLine { kind, line_number: Some(lines[i].line_num), content: lines[i].content },
    )
}

/// Up to `CONTEXT_MAX_LINES` lines before `position`.
pub open spec fn context_above(lines: Seq<Line>, position: int) -> Seq<DiffLine> {
    diff_of(
        lines.subrange(sat_sub(position, CONTEXT_MAX_LINES as int) as int, position),
        DiffLineKind::Unchanged,
    )
}

/// Up to `CONTEXT_MAX_LINES` lines after `position`.
pub open spec fn context_below(lines: Seq<Line>, position: int) -> Seq<DiffLine> {
    if position + 1 >= lines.len() {
        Seq::empty()
    } else {
        let end = if position + 1 + CONTEXT_MAX_LINES < lines.len() {
            position + 1 + CONTEXT_MAX_LINES
        } else {
            lines.len() as int
        };
        diff_of(lines.subrange(position + 1, end), DiffLineKind::Unchanged)
    }
}

/// `lines[from..to]` as diff lines of one kind.
fn diff_lines_of(lines: &Vec<Line>, from: usize, to: usize, kind: DiffLineKind) -> (res: Vec<DiffLine>)
    requires
        from <= to <= lines@.len(),
    ensures
        res@ == diff_of(lines@.subrange(from as int, to as int), kind),
{
    let mut out: Vec<DiffLine> = Vec::new();
    let mut i = from;
    while i < to
        invariant
            from <= i <= to <= lines@.len(),
            out@ == diff_of(lines@.subrange(from as int, i as int), kind),
        decreases to - i,
    {
        out.push(DiffLine { kind, line_number: Some(lines[i].line_num), content: lines[i].content.clone() });
        assert(out@ =~= diff_of(lines@.subrange(from as int, i + 1), kind));
        i = i + 1;
    }
    out
}

/// The removed lines `start_idx..=end_idx` of a block as diff lines.
fn record_deleted_lines(block: &ContentBlock, start_idx: usize, end_idx: usize) -> (res: Vec<DiffLine>)
    requires
        start_idx <= end_idx + 1,
        end_idx < block.lines@.len(),
    ensures
        res@ == diff_of(block.lines@.subrange(start_idx as int, end_idx + 1), DiffLineKind::Deleted),
{
    let n = block.lines.len();
    assert(end_idx < n);
    diff_lines_of(&block.lines, start_idx, end_idx + 1, DiffLineKind::Deleted)
}

/// Context lines before `position` (at most `CONTEXT_MAX_LINES`).
fn collect_block_context_above(block: &ContentBlock, position: usize) -> (res: Vec<DiffLine>)
    requires
        position <= block.lines@.len(),
    ensures
        res@ == context_above(block.lines@, position as int),
{
    if position == 0 {
        assert(context_above(block.lines@, 0) =~= Seq::<DiffLine>::empty());
        return Vec::new();
    }
    let start = position.saturating_sub(CONTEXT_MAX_LINES);
    diff_lines_of(&block.lines, start, position, DiffLineKind::Unchanged)
}

/// Context lines after `position` (at most `CONTEXT_MAX_LINES`).
fn collect_block_context_below(block: &ContentBlock, position: usize) -> (res: Vec<DiffLine>)
    ensures
        res@ == context_below(block.lines@, position as int),
{
    let n = block.lines.len();
    if n == 0 || position >= n - 1 {
        return Vec::new();
    }
    let end = if n - (position + 1) > CONTEXT_MAX_LINES { position + 1 + CONTEXT_MAX_LINES } else { n };
    diff_lines_of(&block.lines, position + 1, end, DiffLineKind::Unchanged)
}

// ------------------------------------------------------------------
// Building inserted lines
// ------------------------------------------------------------------

/// `n` spaces.
pub open spec fn spaces(n: nat) -> Seq<char> {
    Seq::new(n, |i: int| ' ')
}

/// The indentation of an inserted line: its own for raw text, else the
/// one the command gives.
pub open spec fn new_line_taps(n: NewLine) -> int {
    if n.is_raw { leading_spaces(n.content@) as int } else { n.diff_taps as int }
}

/// The text of an inserted line: raw text verbatim, else indented.
pub open spec fn new_line_text(n: NewLine) -> Seq<char> {
    if n.is_raw { n.content@ } else { spaces(n.diff_taps as nat) + n.content@ }
}

/// `l` holds the text `text` with indentation `taps`.
pub open spec fn holds_text(l: Line, taps: int, text: Seq<char>) -> bool {
    &&& l.taps == taps
    &&& l.content@ == text
    &&& l.stripped_content@ == strip_ws(text)
}

/// The line that `n` inserts: number and relative indentation are filled
/// in when the block is renumbered.
fn build_new_line(n: &NewLine) -> (res: Line)
    ensures
        holds_text(res, new_line_taps(*n), new_line_text(*n)),
        res.line_num == LineNumber(1),
        res.diff_taps == 0,
{
    let (taps, text) = if n.is_raw {
        (count_spaces(n.content.as_str()), n.content.clone())
    } else {
        let mut s = String::new();
        let mut k: usize = 0;
        while k < n.diff_taps
            invariant
                k <= n.diff_taps,
                s@ == spaces(k as nat),
            decreases n.diff_taps - k,
        {
            push_char(&mut s, ' ');
            assert(s@ =~= spaces((k + 1) as nat));
            k = k + 1;
        }
        push_text(&mut s, n.content.as_str());
        (n.diff_taps, s)
    };
    let stripped = strip_whitespace(text.as_str());
    Line { line_num: LineNumber(1), taps, diff_taps: 0, content: text, stripped_content: stripped }
}

/// The lines a `New` inserts, in order.
fn build_new_lines(content: &NewContent) -> (res: Vec<Line>)
    ensures
        res@.len() == content.lines@.len(),
        forall|i: int| 0 <= i < res@.len() ==> {
            &&& holds_text(#[trigger] res@[i], new_line_taps(content.lines@[i]), new_line_text(content.lines@[i]))
            &&& res@[i].line_num == LineNumber(1)
            &&& res@[i].diff_taps == 0
        },
{
    let mut out: Vec<Line> = Vec::new();
    let mut i: usize = 0;
    while i < content.lines.len()
        invariant
            i <= content.lines@.len(),
            out@.len() == i,
            forall|j: int| 0 <= j < i ==> {
                &&& holds_text(#[trigger] out@[j], new_line_taps(content.lines@[j]), new_line_text(content.lines@[j]))
                &&& out@[j].line_num == LineNumber(1)
                &&& out@[j].diff_taps == 0
            },
        decreases content.lines@.len() - i,
    {
        out.push(build_new_line(&content.lines[i]));
        i = i + 1;
    }
    out
}

// ------------------------------------------------------------------
// Writing blocks back
// ------------------------------------------------------------------

/// The lines renumbered from 1, as in a freshly read file.
pub open spec fn renumbered(lines: Seq<Line>) -> Seq<Line> {
    reindexed(lines, 1)
}

/// Where a block lands in the file: its first position and how many file
/// lines it replaces.
pub open spec fn file_span(file_len: int, b: BlockView) -> (int, int) {
    let s = idx_of(b.start_line) as int;
    let e = idx_of(b.end_line) as int;
    let wanted = sat_sub(e, s) + 1;
    let room = sat_sub(file_len, s) as int;
    (s, if wanted < room { wanted } else { room })
}

/// The file lines after `b` replaced the lines it was cut from.
pub open spec fn applied_to_file(lines: Seq<Line>, b: BlockView) -> Seq<Line> {
    let (s, c) = file_span(lines.len() as int, b);
    renumbered(lines.take(s) + b.lines + lines.skip(s + c))
}

/// Where an inner block lands in its parent: first position and how many
/// parent lines it replaces.
pub open spec fn parent_span(outer: BlockView, inner: BlockView) -> (int, int) {
    let len = outer.lines.len() as int;
    let base = idx_of(outer.start_line) as int;
    let so0 = sat_sub(idx_of(inner.start_line) as int, base) as int;
    let eo0 = sat_sub(idx_of(inner.end_line) as int, base) as int;
    let so = if so0 < len { so0 } else { len };
    let last = sat_sub(len, 1) as int;
    let eo = if eo0 < last { eo0 } else { last };
    (so, if eo >= so { eo - so + 1 } else { 0 })
}

/// The parent after `inner` replaced the lines it was cut from.
pub open spec fn applied_to_parent(outer: BlockView, inner: BlockView) -> BlockView {
    let (so, c) = parent_span(outer, inner);
    BlockView {
        lines: reindexed(outer.lines.take(so) + inner.lines + outer.lines.skip(so + c), outer.start_line.0 as int),
        ..outer
    }
}

/// `a + b + c` as one vector of copies.
fn joined_lines(a: &Vec<Line>, a_to: usize, b: &Vec<Line>, c: &Vec<Line>, c_from: usize) -> (res: Vec<Line>)
    requires
        a_to <= a@.len(),
        c_from <= c@.len(),
    ensures
        res@ == a@.take(a_to as int) + b@ + c@.skip(c_from as int),
{
    let mut out = copy_lines(a, 0, a_to);
    let mut mid = copy_lines(b, 0, b.len());
    out.append(&mut mid);
    let mut tail = copy_lines(c, c_from, c.len());
    out.append(&mut tail);
    assert(a@.subrange(0, a_to as int) =~= a@.take(a_to as int));
    assert(b@.subrange(0, b@.len() as int) =~= b@);
    assert(c@.subrange(c_from as int, c@.len() as int) =~= c@.skip(c_from as int));
    out
}

/// Renumbers every line of the file from 1 and recomputes relative
/// indentation.
fn reindex_file(file: &mut FileContent)
    ensures
        final(file).lines@ == renumbered(old(file).lines@),
{
    reindex_lines(&mut file.lines, 1);
}

/// Replaces the file lines that `block` was cut from with its lines.
fn apply_block_to_file(file: &mut FileContent, block: &ContentBlock)
    requires
        idx_of(block.start_line) <= old(file).lines@.len(),
    ensures
        final(file).lines@ == applied_to_file(old(file).lines@, block@),
{
    let start_index = block.start_line.to_index();
    let end_index = block.end_line.to_index();
    let wanted = end_index.saturating_sub(start_index) + 1;
    let room = file.lines.len().saturating_sub(start_index);
    let count = if wanted < room { wanted } else { room };
    let lines = joined_lines(&file.lines, start_index, &block.lines, &file.lines, start_index + count);
    file.lines = lines;
    reindex_file(file);
}

/// Replaces the parent lines that `inner` was cut from with its lines.
fn apply_block_to_parent(inner: &ContentBlock, outer: &mut ContentBlock)
    requires
        old(outer).lines@.len() > 0,
    ensures
        final(outer)@ == applied_to_parent(old(outer)@, inner@),
{
    let base = outer.start_line.to_index();
    let start_offset = inner.start_line.to_index().saturating_sub(base);
    let end_offset = inner.end_line.to_index().saturating_sub(base);
    let len = outer.lines.len();
    let start_offset = if start_offset < len { start_offset } else { len };
    let last = len.saturating_sub(1);
    let end_offset = if end_offset < last { end_offset } else { last };
    let count = if end_offset >= start_offset { end_offset - start_offset + 1 } else { 0 };
    let lines = joined_lines(&outer.lines, start_offset, &inner.lines, &outer.lines, start_offset + count);
    outer.lines = lines;
    outer.reindex();
}

// ------------------------------------------------------------------
// The engine
// ------------------------------------------------------------------

/// What the caller has to do after a command.
#[derive(Debug)]
pub enum Effect {
    /// nothing more
    Nothing,
    /// read the file at `path` and hand its text to `Engine::open_text`
    ReadFile { path: String },
    /// write `text` to the file at `path`
    WriteFile { path: String, text: String },
}

/// The command engine: the open file, the stack of located blocks (the
/// innermost on top) and the diff lines recorded so far.
#[derive(Debug)]
pub struct Engine {
    /// path of the open file, for writing it back
    pub file_path: Option<String>,
    /// the open file
    pub file: Option<FileContent>,
    /// blocks of nested `Location` commands; the last is the current scope
    pub block_stack: Vec<ContentBlock>,
    /// what `New` added and `Delete` removed, with context
    pub diff_lines: Vec<DiffLine>,
    /// first and last line number of the block of the last recorded change
    pub last_diff_block_key: Option<(usize, usize)>,
    /// whether each command is echoed before it runs
    pub verbose: bool,
}

/// How changes are grouped in the listing: by the first and last line
/// number of their block.
pub open spec fn block_key(b: BlockView) -> (usize, usize) {
    (b.start_line.0, b.end_line.0)
}

/// The key of the innermost block, if any.
pub open spec fn top_key(stack: Seq<BlockView>) -> Option<(usize, usize)> {
    if stack.len() == 0 {
        None
    } else {
        Some(block_key(stack.last()))
    }
}

/// A separator line of the listing.
pub open spec fn is_separator(l: DiffLine) -> bool {
    &&& l.kind == DiffLineKind::Separator
    &&& l.line_number is None
    &&& l.content@ == Seq::<char>::empty()
}

/// `new` is `old` followed, after a separator when `sep`, by `added`.
pub open spec fn diff_appended(new: Seq<DiffLine>, old: Seq<DiffLine>, sep: bool, added: Seq<DiffLine>) -> bool {
    if sep {
        &&& new.len() == old.len() + 1 + added.len()
        &&& new.take(old.len() as int) == old
        &&& is_separator(new[old.len() as int])
        &&& new.skip(old.len() as int + 1) == added
    } else {
        new == old + added
    }
}

/// The error of a `Location` with no file open.
pub open spec fn no_file_opened(e: NEditError) -> bool {
    e matches NEditError::File(FileError::NotFound { path }) && path@ == "(no file opened)"@
}

/// Added diff lines for `(line number, text)` entries.
pub open spec fn entries_diff(entries: Seq<(usize, String)>) -> Seq<DiffLine> {
    Seq::new(
        entries.len(),
        |i: int| DiffLine { kind: DiffLineKind::Added, line_number: Some(LineNumber(entries[i].0)), content: entries[i].1 },
    )
}

/// `min(pos + count, len)`, for `pos <= len`.
pub open spec fn span_end(len: int, pos: int, count: int) -> int {
    if count > len - pos { len } else { pos + count }
}

/// `(line number, text)` of the lines `pos..min(pos + count, len)`.
pub open spec fn line_entries(lines: Seq<Line>, pos: int, count: int) -> Seq<(usize, String)> {
    let end = if pos >= lines.len() { lines.len() as int } else { span_end(lines.len() as int, pos, count) };
    Seq::new(
        if end > pos { (end - pos) as nat } else { 0 },
        |k: int| (lines[pos + k].line_num.0, lines[pos + k].content),
    )
}

/// What the listing records for lines inserted at `pos`: context before,
/// the new lines, context after.
pub open spec fn added_diff(lines: Seq<Line>, pos: int, count: int) -> Seq<DiffLine> {
    let end = span_end(lines.len() as int, pos, count);
    context_above(lines, pos) + diff_of(lines.subrange(pos, end), DiffLineKind::Added) + context_below(
        lines,
        sat_sub(end, 1) as int,
    )
}

/// What the listing records for the lines `s..=e` about to be removed.
pub open spec fn deleted_diff(lines: Seq<Line>, s: int, e: int) -> Seq<DiffLine> {
    context_above(lines, s) + diff_of(lines.subrange(s, e + 1), DiffLineKind::Deleted) + context_below(lines, e)
}

/// Lines built from the lines of a `New`, one for one.
pub open spec fn built_lines(mid: Seq<Line>, content: Seq<NewLine>) -> bool {
    &&& mid.len() == content.len()
    &&& forall|i: int|
        0 <= i < mid.len() ==> holds_text(#[trigger] mid[i], new_line_taps(content[i]), new_line_text(content[i]))
}

/// `res` is `old` with the lines of a `New` inserted at `pos`, renumbered
/// from `first`.
pub open spec fn inserted(res: Seq<Line>, old: Seq<Line>, pos: int, content: Seq<NewLine>, first: int) -> bool {
    exists|mid: Seq<Line>| #[trigger] built_lines(mid, content) && res == reindexed(old.take(pos) + mid + old.skip(pos), first)
}

/// Where `New` inserts in a block: after the located lines, where a
/// `Delete` removed lines, or at the end.
pub open spec fn insert_position(b: BlockView) -> int {
    match b.match_info {
        MatchInfo::Empty => b.lines.len() as int,
        MatchInfo::Location { matched_line_count } => matched_line_count as int,
        MatchInfo::DeleteAt { position } => position as int,
    }
}

/// The outcome of a `Location` on `lines`.
pub open spec fn location_outcome(
    r: Result<ContentBlock, MatchError>,
    lines: Seq<Line>,
    content: LocationContent,
    block: bool,
    range: Option<LineRange>,
) -> bool {
    match range {
        Some(rg) => ranged(r, lines, rg, block, false),
        None => if content.lines@.len() == 0 {
            r matches Ok(b) && is_whole_scope(b, lines)
        } else {
            located(r, lines, content.lines@, block)
        },
    }
}

/// The first position where the lines of a `Delete` can be removed.
pub open spec fn delete_start(lines: Seq<Line>, del: Seq<DeleteLine>) -> Option<int> {
    if del.len() > 0 && exists|i: int| 0 <= i < lines.len() && #[trigger] deletes_at(lines, del, i) {
        Some(
            choose|i: int|
                0 <= i < lines.len() && #[trigger] deletes_at(lines, del, i) && forall|j: int|
                    0 <= j < i ==> !deletes_at(lines, del, j),
        )
    } else {
        None
    }
}

/// The first match is the one `delete_start` names.
proof fn lemma_delete_start(lines: Seq<Line>, del: Seq<DeleteLine>, s: int)
    requires
        del.len() > 0,
        0 <= s < lines.len(),
        deletes_at(lines, del, s),
        forall|j: int| 0 <= j < s ==> !deletes_at(lines, del, j),
    ensures
        delete_start(lines, del) == Some(s),
{
    let c = choose|i: int|
        0 <= i < lines.len() && #[trigger] deletes_at(lines, del, i) && forall|j: int| 0 <= j < i ==> !deletes_at(lines, del, j);
    assert(0 <= c < lines.len() && deletes_at(lines, del, c) && forall|j: int| 0 <= j < c ==> !deletes_at(lines, del, j));
    if c < s {
        assert(!deletes_at(lines, del, c));
    }
    if s < c {
        assert(!deletes_at(lines, del, s));
    }
}

/// The error of a `Delete` whose lines were not found in `lines`.
pub open spec fn delete_failed(e: NEditError, del: Seq<DeleteLine>, lines: Seq<Line>) -> bool {
    e matches NEditError::Match(MatchError::DeleteMatchFailed { delete_content, block_snippet })
        && delete_content@ == (if del.len() > 0 { del[0].content@ } else { Seq::<char>::empty() })
        && block_snippet@ == join_with(snippet_lines(lines), seq!['\n'])
}

/// A `Delete` by line range: the first position and the last (clamped to
/// the block).
pub open spec fn delete_range(len: int, range: LineRange) -> (int, int) {
    let s = sat_sub(range.start as int, 1) as int;
    let e0 = sat_sub(range.end as int, 1) as int;
    let last = sat_sub(len, 1) as int;
    (s, if e0 < last { e0 } else { last })
}

/// The report of a `Delete` line range that starts past the block.
pub open spec fn range_text(range: LineRange, len: int) -> Seq<char> {
    "Delete 行号 "@ + decimal(range.start as nat) + " 超出范围（Block 共 "@ + decimal(len as nat) + " 行）"@
}

/// `e` is the missing-`Location` error.
pub open spec fn missing_location(e: NEditError) -> bool {
    e == NEditError::Engine(EngineError::MissingLocationForNew)
}

/// The stack and file after the innermost block was merged into its
/// parent, or, when it is the last one, into the file.
pub open spec fn pop_merged(stack: Seq<BlockView>, file: Option<Seq<Line>>) -> (Seq<BlockView>, Option<Seq<Line>>) {
    let n = stack.len() as int;
    if n >= 2 {
        (stack.take(n - 2).push(applied_to_parent(stack[n - 2], stack[n - 1])), file)
    } else if n == 1 {
        (
            Seq::empty(),
            match file {
                Some(f) => Some(applied_to_file(f, stack[0])),
                None => None,
            },
        )
    } else {
        (stack, file)
    }
}

/// The file lines after every block was merged down, innermost first.
pub open spec fn collapsed(stack: Seq<BlockView>, file: Option<Seq<Line>>) -> Option<Seq<Line>>
    decreases stack.len(),
{
    if stack.len() == 0 {
        file
    } else {
        let next = pop_merged(stack, file);
        collapsed(next.0, next.1)
    }
}

/// Merging the innermost block down cannot panic: a parent it lands in
/// has lines, and the file holds its first line's position.
pub open spec fn pop_safe(stack: Seq<BlockView>, file: Option<Seq<Line>>) -> bool {
    let n = stack.len() as int;
    &&& n >= 2 ==> stack[n - 2].lines.len() > 0
    &&& (n == 1 && file is Some) ==> idx_of(stack[0].start_line) <= file->0.len()
}

/// Merging the whole stack down cannot panic.
pub open spec fn collapsible(stack: Seq<BlockView>, file: Option<Seq<Line>>) -> bool {
    &&& forall|k: int| 0 <= k < stack.len() - 1 ==> (#[trigger] stack[k]).lines.len() > 0
    &&& (stack.len() > 0 && file is Some) ==> idx_of(stack[0].start_line) <= file->0.len()
}

/// What is written back for the file lines.
pub open spec fn written(lines: Seq<Line>) -> Seq<char> {
    joined_text(contents(lines))
}

/// A successful result asks nothing of the caller.
pub open spec fn nothing_to_do(res: Result<Effect, NEditError>) -> bool {
    match res {
        Ok(Effect::Nothing) => true,
        Ok(_) => false,
        Err(_) => true,
    }
}

/// The success of a command that has nothing for the caller to do.
pub open spec fn unit_of(res: Result<Effect, NEditError>) -> Result<(), NEditError> {
    match res {
        Ok(_) => Ok(()),
        Err(e) => Err(e),
    }
}

/// Whether two block keys are the same.
fn same_key(a: Option<(usize, usize)>, b: Option<(usize, usize)>) -> (res: bool)
    ensures
        res == (a == b),
{
    match (a, b) {
        (Some(x), Some(y)) => x.0 == y.0 && x.1 == y.1,
        (None, None) => true,
        _ => false,
    }
}

impl Default for Engine {
    fn default() -> (res: Engine)
        ensures
            res.file is None,
            res.file_path is None,
            res.block_stack@.len() == 0,
            res.diff_lines@.len() == 0,
            res.last_diff_block_key is None,
            !res.verbose,
    {
        Engine::new()
    }
}

impl Engine {
    /// The blocks on the stack.
    pub open spec fn blocks(&self) -> Seq<BlockView> {
        Seq::new(self.block_stack@.len(), |i: int| self.block_stack@[i]@)
    }

    /// The lines of the open file.
    pub open spec fn file_lines(&self) -> Option<Seq<Line>> {
        match self.file {
            Some(f) => Some(f.lines@),
            None => None,
        }
    }

    /// The lines a `Location` searches: the innermost block, else the file.
    pub open spec fn scope_lines(&self) -> Option<Seq<Line>> {
        if self.block_stack@.len() > 0 {
            Some(self.block_stack@.last().lines@)
        } else {
            self.file_lines()
        }
    }

    /// The next recorded change starts a new group in the listing.
    pub open spec fn separator_due(&self) -> bool {
        &&& top_key(self.blocks()) != self.last_diff_block_key
        &&& self.last_diff_block_key is Some
        &&& self.diff_lines@.len() > 0
    }

    /// Same open path and echo setting.
    pub open spec fn same_settings(&self, other: Engine) -> bool {
        self.file_path == other.file_path && self.verbose == other.verbose
    }

    /// A fresh engine: no file, no blocks, no changes.
    pub fn new() -> (res: Engine)
        ensures
            res.file is None,
            res.file_path is None,
            res.block_stack@.len() == 0,
            res.diff_lines@.len() == 0,
            res.last_diff_block_key is None,
            !res.verbose,
    {
        Engine {
            file_path: None,
            file: None,
            block_stack: Vec::new(),
            diff_lines: Vec::new(),
            last_diff_block_key: None,
            verbose: false,
        }
    }

    /// Turns echoing of commands on or off.
    pub fn set_verbose(&mut self, verbose: bool)
        ensures
            final(self).verbose == verbose,
            final(self).file_path == old(self).file_path,
            final(self).last_diff_block_key == old(self).last_diff_block_key,
            final(self).file == old(self).file,
            final(self).block_stack == old(self).block_stack,
            final(self).diff_lines == old(self).diff_lines,
    {
        self.verbose = verbose;
    }

    /// The scope a `Location` searches: the innermost block, else the file.
    fn get_search_scope(&self) -> (res: Result<SearchScope<'_>, NEditError>)
        ensures
            match res {
                Ok(scope) => self.scope_lines() == Some(scope.spec_lines()),
                Err(e) => self.scope_lines() is None && no_file_opened(e),
            },
    {
        if self.block_stack.len() > 0 {
            Ok(SearchScope::Block(&self.block_stack[self.block_stack.len() - 1]))
        } else {
            match &self.file {
                Some(f) => Ok(SearchScope::File(f)),
                None => Err(NEditError::File(FileError::NotFound { path: String::from_str("(no file opened)") })),
            }
        }
    }

    /// What a `Location` did: the located block is pushed, or nothing
    /// changes and the error is returned.
    pub open spec fn location_done(
        old: Engine,
        new: Engine,
        res: Result<(), NEditError>,
        content: LocationContent,
        block: bool,
        range: Option<LineRange>,
    ) -> bool {
        match old.scope_lines() {
            None => res matches Err(e) && no_file_opened(e) && new == old,
            Some(lines) => match res {
                Ok(_) => {
                    &&& new.block_stack@.len() == old.block_stack@.len() + 1
                    &&& new.block_stack@.drop_last() == old.block_stack@
                    &&& location_outcome(Ok(new.block_stack@.last()), lines, content, block, range)
                    &&& new.file == old.file
                    &&& new.diff_lines == old.diff_lines
                    &&& new.last_diff_block_key == old.last_diff_block_key
                    &&& new.same_settings(old)
                },
                Err(NEditError::Match(e)) => location_outcome(Err(e), lines, content, block, range) && new == old,
                Err(_) => false,
            },
        }
    }

    /// Runs a `Location`: finds the block in the current scope (by content,
    /// or by line range) and makes it the current scope.
    fn execute_location(&mut self, location_content: &LocationContent, block: bool, line_range: Option<LineRange>) -> (res: Result<(), NEditError>)
        ensures
            Engine::location_done(*old(self), *final(self), res, *location_content, block, line_range),
    {
        let content_block = {
            let search_scope = match self.get_search_scope() {
                Ok(scope) => scope,
                Err(e) => return Err(e),
            };
            let found = match line_range {
                Some(range) => LocationMatcher::find_by_line_range(&search_scope, range, block, false),
                None => LocationMatcher::find_unique_block(&search_scope, location_content, block),
            };
            match found {
                Ok(b) => b,
                Err(e) => return Err(NEditError::Match(e)),
            }
        };
        self.block_stack.push(content_block);
        assert(self.block_stack@.drop_last() =~= old(self).block_stack@);
        Ok(())
    }

    /// The innermost block changed (same first and last line number), the
    /// rest of the stack and the file did not.
    pub open spec fn top_edited(old: Engine, new: Engine) -> bool {
        &&& old.block_stack@.len() > 0
        &&& new.block_stack@.len() == old.block_stack@.len()
        &&& new.block_stack@.drop_last() == old.block_stack@.drop_last()
        &&& new.block_stack@.last().start_line == old.block_stack@.last().start_line
        &&& new.block_stack@.last().end_line == old.block_stack@.last().end_line
        &&& new.file == old.file
        &&& new.same_settings(old)
    }

    /// A change in the innermost block was recorded: `added` after a
    /// separator when it is due.
    pub open spec fn change_recorded(old: Engine, new: Engine, added: Seq<DiffLine>) -> bool {
        &&& diff_appended(new.diff_lines@, old.diff_lines@, old.separator_due(), added)
        &&& new.last_diff_block_key == top_key(old.blocks())
    }

    /// What `New:Start` (`at_end == false`) or `New:End` did: lines
    /// inserted first or last in the innermost block, else in the file,
    /// else nothing.
    pub open spec fn new_edge_done(old: Engine, new: Engine, content: Seq<NewLine>, at_end: bool) -> bool {
        if old.block_stack@.len() > 0 {
            let b = old.block_stack@.last();
            let nb = new.block_stack@.last();
            let pos = if at_end { b.lines@.len() as int } else { 0 };
            &&& Engine::top_edited(old, new)
            &&& nb.match_info == b.match_info
            &&& inserted(nb.lines@, b.lines@, pos, content, b.start_line.0 as int)
            &&& Engine::change_recorded(old, new, added_diff(nb.lines@, pos, content.len() as int))
        } else if old.file is Some {
            let f = old.file->0.lines@;
            let pos = if at_end { f.len() as int } else { 0 };
            &&& new.file is Some
            &&& inserted(new.file->0.lines@, f, pos, content, 1)
            &&& new.diff_lines@ == old.diff_lines@ + entries_diff(
                line_entries(new.file->0.lines@, pos, content.len() as int),
            )
            &&& new.block_stack == old.block_stack
            &&& new.last_diff_block_key == old.last_diff_block_key
            &&& new.same_settings(old)
        } else {
            new == old
        }
    }

    /// Inserts the lines of a `New` first (`at_end == false`) or last in
    /// the innermost block, or in the file when no block is open.
    fn execute_new_edge(&mut self, content: &NewContent, at_end: bool)
        ensures
            Engine::new_edge_done(*old(self), *final(self), content.lines@, at_end),
    {
        let new_lines = build_new_lines(content);
        let new_line_count = new_lines.len();
        if self.block_stack.len() > 0 {
            let mut block = self.block_stack.pop().unwrap();
            let ghost old_block = block@;
            let insert_pos = if at_end { block.lines.len() } else { 0 };
            block.lines = joined_lines(&block.lines, insert_pos, &new_lines, &block.lines, insert_pos);
            block.reindex();
            assert(built_lines(new_lines@, content.lines@));
            assert(block.lines@ == reindexed(old_block.lines.take(insert_pos as int) + new_lines@ + old_block.lines.skip(insert_pos as int), old_block.start_line.0 as int));
            let (changed, context_above, context_below) = Self::collect_added_diff_data(&block, insert_pos, new_line_count);
            self.block_stack.push(block);
            assert(self.block_stack@.drop_last() =~= old(self).block_stack@.drop_last());
            assert(top_key(self.blocks()) == top_key(old(self).blocks()));
            self.record_diff_with_context(changed, context_above, context_below);
        } else if self.file.is_some() {
            let mut file = self.file.take().unwrap();
            let insert_pos = if at_end { file.lines.len() } else { 0 };
            file.lines = joined_lines(&file.lines, insert_pos, &new_lines, &file.lines, insert_pos);
            reindex_file(&mut file);
            assert(built_lines(new_lines@, content.lines@));
            let added_entries = collect_new_file_line_info(&file, insert_pos, new_line_count);
            self.file = Some(file);
            self.record_added_lines(added_entries);
        }
    }

    /// Runs `New:Start`: inserts before the first line of the innermost
    /// block, or of the file when no block is open.
    fn execute_new_start(&mut self, content: &NewContent) -> (res: Result<(), NEditError>)
        ensures
            res is Ok,
            Engine::new_edge_done(*old(self), *final(self), content.lines@, false),
    {
        self.execute_new_edge(content, false);
        Ok(())
    }

    /// Runs `New:End`: inserts after the last line of the innermost block,
    /// or of the file when no block is open.
    fn execute_new_end(&mut self, content: &NewContent) -> (res: Result<(), NEditError>)
        ensures
            res is Ok,
            Engine::new_edge_done(*old(self), *final(self), content.lines@, true),
    {
        self.execute_new_edge(content, true);
        Ok(())
    }

    /// The position where `New` inserts does not lie beyond the lines it
    /// will have (else the listing would slice out of bounds).
    pub open spec fn new_normal_safe(&self, count: int) -> bool {
        self.block_stack@.len() > 0 ==> insert_position(self.block_stack@.last()@) <= self.block_stack@.last().lines@.len() + count
    }

    /// What `New` did: lines inserted at the block's insert position (the
    /// end, if that lies beyond it), or the error for a missing `Location`.
    pub open spec fn new_normal_done(old: Engine, new: Engine, res: Result<(), NEditError>, content: Seq<NewLine>) -> bool {
        if old.block_stack@.len() == 0 {
            res == Err::<(), NEditError>(NEditError::Engine(EngineError::MissingLocationForNew)) && new == old
        } else {
            let b = old.block_stack@.last();
            let nb = new.block_stack@.last();
            let ip = insert_position(b@);
            let pos = if ip < b.lines@.len() { ip } else { b.lines@.len() as int };
            &&& res is Ok
            &&& Engine::top_edited(old, new)
            &&& nb.match_info == b.match_info
            &&& inserted(nb.lines@, b.lines@, pos, content, b.start_line.0 as int)
            &&& Engine::change_recorded(old, new, added_diff(nb.lines@, ip, content.len() as int))
        }
    }

    /// Inserts the lines of a `New` into the innermost block after the
    /// located lines (or where a `Delete` removed lines).
    fn execute_new_normal(&mut self, content: &NewContent) -> (res: Result<(), NEditError>)
        requires
            old(self).new_normal_safe(content.lines@.len() as int),
        ensures
            Engine::new_normal_done(*old(self), *final(self), res, content.lines@),
    {
        if self.block_stack.len() == 0 {
            return Err(NEditError::Engine(EngineError::MissingLocationForNew));
        }
        let mut block = self.block_stack.pop().unwrap();
        let ghost old_block = block@;
        let insert_pos = match block.match_info {
            MatchInfo::Empty => block.lines.len(),
            MatchInfo::Location { matched_line_count } => matched_line_count,
            MatchInfo::DeleteAt { position } => position,
        };
        let new_lines = build_new_lines(content);
        let new_line_count = new_lines.len();
        let at = if insert_pos < block.lines.len() { insert_pos } else { block.lines.len() };
        block.lines = joined_lines(&block.lines, at, &new_lines, &block.lines, at);
        block.reindex();
        assert(built_lines(new_lines@, content.lines@));
        assert(block.lines@ == reindexed(old_block.lines.take(at as int) + new_lines@ + old_block.lines.skip(at as int), old_block.start_line.0 as int));
        let (changed, context_above, context_below) = Self::collect_added_diff_data(&block, insert_pos, new_line_count);
        self.block_stack.push(block);
        assert(self.block_stack@.drop_last() =~= old(self).block_stack@.drop_last());
        assert(top_key(self.blocks()) == top_key(old(self).blocks()));
        self.record_diff_with_context(changed, context_above, context_below);
        Ok(())
    }

    /// A `New` can run without a panic.
    pub open spec fn new_safe(&self, position: NewPosition, count: int) -> bool {
        position == NewPosition::Normal ==> self.new_normal_safe(count)
    }

    /// What a `New` did, by position.
    pub open spec fn new_done(old: Engine, new: Engine, res: Result<(), NEditError>, position: NewPosition, content: Seq<NewLine>) -> bool {
        match position {
            NewPosition::Start => res is Ok && Engine::new_edge_done(old, new, content, false),
            NewPosition::End => res is Ok && Engine::new_edge_done(old, new, content, true),
            NewPosition::Normal => Engine::new_normal_done(old, new, res, content),
        }
    }

    /// Runs a `New`.
    fn execute_new(&mut self, position: NewPosition, content: &NewContent) -> (res: Result<(), NEditError>)
        requires
            old(self).new_safe(position, content.lines@.len() as int),
        ensures
            Engine::new_done(*old(self), *final(self), res, position, content.lines@),
    {
        match position {
            NewPosition::Start => self.execute_new_start(content),
            NewPosition::End => self.execute_new_end(content),
            NewPosition::Normal => self.execute_new_normal(content),
        }
    }

    /// The innermost block lost the lines `s..=e`; `New` now inserts at `s`.
    pub open spec fn lines_removed(old: Engine, new: Engine, s: int, e: int) -> bool {
        let b = old.block_stack@.last();
        let nb = new.block_stack@.last();
        &&& Engine::top_edited(old, new)
        &&& nb.lines@ == reindexed(b.lines@.take(s) + b.lines@.skip(e + 1), b.start_line.0 as int)
        &&& nb.match_info == MatchInfo::DeleteAt { position: s as usize }
        &&& Engine::change_recorded(old, new, deleted_diff(b.lines@, s, e))
    }

    /// Removes the lines `s..=e` of the innermost block (none when
    /// `s == e + 1`) and records them.
    fn remove_top_lines(&mut self, s: usize, e: usize)
        requires
            old(self).block_stack@.len() > 0,
            s <= e + 1,
            e < old(self).block_stack@.last().lines@.len(),
        ensures
            Engine::lines_removed(*old(self), *final(self), s as int, e as int),
    {
        let mut block = self.block_stack.pop().unwrap();
        let ghost old_block = block@;
        let (changed, context_above, context_below) = Self::collect_deleted_diff_data(&block, s, e);
        let nothing: Vec<Line> = Vec::new();
        let n = block.lines.len();
        assert(e < n);
        block.lines = joined_lines(&block.lines, s, &nothing, &block.lines, e + 1);
        assert(block.lines@ =~= old_block.lines.take(s as int) + old_block.lines.skip(e + 1));
        block.match_info = MatchInfo::DeleteAt { position: s };
        block.reindex();
        self.block_stack.push(block);
        assert(self.block_stack@.drop_last() =~= old(self).block_stack@.drop_last());
        assert(top_key(self.blocks()) == top_key(old(self).blocks()));
        self.record_diff_with_context(changed, context_above, context_below);
    }

    /// What `Delete:Block` did: the innermost block is left with one empty
    /// line numbered as its first line, and its old lines are recorded.
    pub open spec fn block_delete_done(old: Engine, new: Engine, res: Result<(), NEditError>) -> bool {
        if old.block_stack@.len() == 0 {
            res matches Err(e) && missing_location(e) && new == old
        } else {
            let b = old.block_stack@.last();
            let nb = new.block_stack@.last();
            &&& res is Ok
            &&& Engine::top_edited(old, new)
            &&& nb.lines@.len() == 1
            &&& nb.lines@[0].line_num == b.start_line
            &&& holds_text(nb.lines@[0], 0, Seq::empty())
            &&& nb.lines@[0].diff_taps == 0
            &&& nb.match_info == MatchInfo::DeleteAt { position: 0 }
            &&& if b.lines@.len() > 0 {
                Engine::change_recorded(old, new, deleted_diff(b.lines@, 0, b.lines@.len() - 1))
            } else {
                new.diff_lines == old.diff_lines && new.last_diff_block_key == old.last_diff_block_key
            }
        }
    }

    /// Runs `Delete:Block`: empties the innermost block.
    fn execute_delete_block(&mut self) -> (res: Result<(), NEditError>)
        ensures
            Engine::block_delete_done(*old(self), *final(self), res),
    {
        if self.block_stack.len() == 0 {
            return Err(NEditError::Engine(EngineError::MissingLocationForNew));
        }
        let mut block = self.block_stack.pop().unwrap();
        let total = block.lines.len();
        let diff_data = if total > 0 {
            Some(Self::collect_deleted_diff_data(&block, 0, total - 1))
        } else {
            None
        };
        let first_line_num = block.start_line;
        let mut lines: Vec<Line> = Vec::new();
        lines.push(Line {
            line_num: first_line_num,
            taps: 0,
            diff_taps: 0,
            content: String::new(),
            stripped_content: String::new(),
        });
        block.lines = lines;
        block.match_info = MatchInfo::DeleteAt { position: 0 };
        block.reindex();
        assert(strip_ws(Seq::<char>::empty()) =~= Seq::<char>::empty());
        self.block_stack.push(block);
        assert(self.block_stack@.drop_last() =~= old(self).block_stack@.drop_last());
        assert(top_key(self.blocks()) == top_key(old(self).blocks()));
        if let Some((changed, context_above, context_below)) = diff_data {
            self.record_diff_with_context(changed, context_above, context_below);
        }
        Ok(())
    }

    /// A `Delete` by line range can run without a panic: the range ends at
    /// most one line before it starts (then it is empty).
    pub open spec fn range_delete_safe(&self, range: LineRange) -> bool {
        self.block_stack@.len() > 0 ==> {
            let len = self.block_stack@.last().lines@.len() as int;
            let (s, e) = delete_range(len, range);
            s < len ==> s <= e + 1
        }
    }

    /// What a `Delete` by line range did.
    pub open spec fn range_delete_done(old: Engine, new: Engine, res: Result<(), NEditError>, range: LineRange) -> bool {
        if old.block_stack@.len() == 0 {
            res matches Err(e) && missing_location(e) && new == old
        } else {
            let len = old.block_stack@.last().lines@.len() as int;
            let (s, e) = delete_range(len, range);
            if s >= len {
                res matches Err(NEditError::Match(MatchError::NoMatch { location_content }))
                    && location_content@ == range_text(range, len) && new == old
            } else {
                res is Ok && Engine::lines_removed(old, new, s, e)
            }
        }
    }

    /// Runs a `Delete` by line range (1-based, relative to the innermost
    /// block, the end clamped to the block).
    fn execute_delete_by_line_range(&mut self, line_range: LineRange) -> (res: Result<(), NEditError>)
        requires
            old(self).range_delete_safe(line_range),
        ensures
            Engine::range_delete_done(*old(self), *final(self), res, line_range),
    {
        if self.block_stack.len() == 0 {
            return Err(NEditError::Engine(EngineError::MissingLocationForNew));
        }
        let n = self.block_stack[self.block_stack.len() - 1].lines.len();
        let start_index = line_range.start.saturating_sub(1);
        let last = line_range.end.saturating_sub(1);
        let cap = n.saturating_sub(1);
        let end_index = if last < cap { last } else { cap };
        if start_index >= n {
            let mut msg = String::new();
            push_text(&mut msg, "Delete 行号 ");
            push_decimal(&mut msg, line_range.start);
            push_text(&mut msg, " 超出范围（Block 共 ");
            push_decimal(&mut msg, n);
            push_text(&mut msg, " 行）");
            return Err(NEditError::Match(MatchError::NoMatch { location_content: msg }));
        }
        self.remove_top_lines(start_index, end_index);
        Ok(())
    }

    /// What a `Delete` of matching lines did.
    pub open spec fn match_delete_done(old: Engine, new: Engine, res: Result<(), NEditError>, del: Seq<DeleteLine>) -> bool {
        if old.block_stack@.len() == 0 {
            res matches Err(e) && missing_location(e) && new == old
        } else {
            let b = old.block_stack@.last();
            match delete_start(b.lines@, del) {
                None => res matches Err(e) && delete_failed(e, del, b.lines@) && new == old,
                Some(s) => if gap_before(b@, s) > 0 {
                    adjacency_checked(res, b@, s) && new == old
                } else {
                    res is Ok && Engine::lines_removed(old, new, s, s + del.len() - 1)
                },
            }
        }
    }

    /// A `Delete` can run without a panic.
    pub open spec fn delete_safe(&self, block: bool, range: Option<LineRange>) -> bool {
        !block ==> match range {
            Some(rg) => self.range_delete_safe(rg),
            None => true,
        }
    }

    /// What a `Delete` did: of the whole block, of a line range, or of the
    /// lines that match its content.
    pub open spec fn delete_done(
        old: Engine,
        new: Engine,
        res: Result<(), NEditError>,
        block: bool,
        content: Option<DeleteContent>,
        range: Option<LineRange>,
    ) -> bool {
        if block {
            Engine::block_delete_done(old, new, res)
        } else {
            match range {
                Some(rg) => Engine::range_delete_done(old, new, res, rg),
                None => match content {
                    Some(c) => Engine::match_delete_done(old, new, res, c.lines@),
                    None => res matches Err(e) && missing_location(e) && new == old,
                },
            }
        }
    }

    /// Runs a `Delete`.
    fn execute_delete(&mut self, block: bool, content: Option<&DeleteContent>, line_range: Option<LineRange>) -> (res: Result<(), NEditError>)
        requires
            old(self).delete_safe(block, line_range),
        ensures
            Engine::delete_done(
                *old(self),
                *final(self),
                res,
                block,
                match content {
                    Some(c) => Some(*c),
                    None => None,
                },
                line_range,
            ),
    {
        if block {
            return self.execute_delete_block();
        }
        if let Some(range) = line_range {
            return self.execute_delete_by_line_range(range);
        }
        let del_content = match content {
            Some(c) => c,
            None => return Err(NEditError::Engine(EngineError::MissingLocationForNew)),
        };
        if self.block_stack.len() == 0 {
            return Err(NEditError::Engine(EngineError::MissingLocationForNew));
        }
        let top = self.block_stack.len() - 1;
        let found = find_delete_match(&self.block_stack[top], del_content);
        let (start_idx, end_idx) = match found {
            Some(range) => range,
            None => {
                proof {
                    let lines = self.block_stack@.last().lines@;
                    if del_content.lines@.len() > 0 && exists|i: int| 0 <= i < lines.len() && #[trigger] deletes_at(lines, del_content.lines@, i) {
                        let i = choose|i: int| 0 <= i < lines.len() && #[trigger] deletes_at(lines, del_content.lines@, i);
                        assert(!deletes_at(lines, del_content.lines@, i));
                    }
                }
                return Err(delete_not_found_error(del_content, &self.block_stack[top]));
            },
        };
        proof {
            lemma_delete_start(self.block_stack@.last().lines@, del_content.lines@, start_idx as int);
        }
        match check_delete_adjacency(&self.block_stack[top], start_idx) {
            Ok(()) => {},
            Err(e) => return Err(e),
        }
        self.remove_top_lines(start_idx, end_idx);
        Ok(())
    }

    /// Merges a block taken off the stack into its parent, or into the file
    /// when no block is left.
    fn write_back_to_parent(&mut self, block: ContentBlock)
        requires
            pop_safe(old(self).blocks().push(block@), old(self).file_lines()),
        ensures
            final(self).blocks() == pop_merged(old(self).blocks().push(block@), old(self).file_lines()).0,
            final(self).file_lines() == pop_merged(old(self).blocks().push(block@), old(self).file_lines()).1,
            final(self).diff_lines == old(self).diff_lines,
            final(self).last_diff_block_key == old(self).last_diff_block_key,
            final(self).same_settings(*old(self)),
    {
        let ghost st = old(self).blocks().push(block@);
        if self.block_stack.len() > 0 {
            let mut parent = self.block_stack.pop().unwrap();
            assert(st[st.len() - 2] == parent@);
            apply_block_to_parent(&block, &mut parent);
            self.block_stack.push(parent);
            assert(self.blocks() =~= pop_merged(st, old(self).file_lines()).0);
        } else if self.file.is_some() {
            let mut file = self.file.take().unwrap();
            apply_block_to_file(&mut file, &block);
            self.file = Some(file);
            assert(self.blocks() =~= pop_merged(st, old(self).file_lines()).0);
        } else {
            assert(self.blocks() =~= pop_merged(st, old(self).file_lines()).0);
        }
    }

    /// What `Off:Location` / `Off:New` did: the innermost block merged down,
    /// or the error for an empty stack.
    pub open spec fn off_scope_done(old: Engine, new: Engine, res: Result<Effect, NEditError>) -> bool {
        if old.block_stack@.len() == 0 {
            res matches Err(e) && e == NEditError::Engine(EngineError::BlockStackEmpty) && new == old
        } else {
            &&& res matches Ok(Effect::Nothing)
            &&& new.blocks() == pop_merged(old.blocks(), old.file_lines()).0
            &&& new.file_lines() == pop_merged(old.blocks(), old.file_lines()).1
            &&& new.diff_lines == old.diff_lines
            &&& new.last_diff_block_key == old.last_diff_block_key
            &&& new.same_settings(old)
        }
    }

    /// What writing everything back did: the stack merged down into the
    /// file, whose text is to be written when a file is open.
    pub open spec fn flushed(old: Engine, new: Engine, res: Effect) -> bool {
        &&& new.block_stack@.len() == 0
        &&& new.file_lines() == collapsed(old.blocks(), old.file_lines())
        &&& new.diff_lines == old.diff_lines
        &&& new.last_diff_block_key == old.last_diff_block_key
        &&& new.same_settings(old)
        &&& match (new.file, old.file_path) {
            (Some(f), Some(p)) => res matches Effect::WriteFile { path, text } && path == p && text@ == written(f.lines@),
            _ => res is Nothing,
        }
    }

    /// Merges every block down into the file, innermost first, and says
    /// what to write back.
    fn write_back_to_file(&mut self) -> (res: Effect)
        requires
            collapsible(old(self).blocks(), old(self).file_lines()),
        ensures
            Engine::flushed(*old(self), *final(self), res),
    {
        while self.block_stack.len() > 0
            invariant
                collapsible(self.blocks(), self.file_lines()),
                collapsed(self.blocks(), self.file_lines()) == collapsed(old(self).blocks(), old(self).file_lines()),
                self.diff_lines == old(self).diff_lines,
                self.last_diff_block_key == old(self).last_diff_block_key,
                self.same_settings(*old(self)),
            decreases self.block_stack@.len(),
        {
            let ghost before = self.blocks();
            let ghost before_file = self.file_lines();
            let block = self.block_stack.pop().unwrap();
            assert(self.blocks().push(block@) =~= before);
            self.write_back_to_parent(block);
            proof {
                let n = before.len() as int;
                if n >= 2 {
                    assert forall|k: int| 0 <= k < self.blocks().len() - 1 implies (#[trigger] self.blocks()[k]).lines.len() > 0 by {
                        assert(self.blocks()[k] == before[k]);
                    }
                    assert(self.blocks()[0].start_line == before[0].start_line);
                }
            }
        }
        assert(self.blocks() =~= Seq::<BlockView>::empty());
        match (&self.file, &self.file_path) {
            (Some(f), Some(p)) => Effect::WriteFile { path: p.clone(), text: f.to_text() },
            _ => Effect::Nothing,
        }
    }

    /// `Off:Location` / `Off:New` can run without a panic.
    pub open spec fn off_safe(&self, target: OffTarget) -> bool {
        if target == OffTarget::Open {
            collapsible(self.blocks(), self.file_lines())
        } else {
            pop_safe(self.blocks(), self.file_lines())
        }
    }

    /// What an `Off` did.
    pub open spec fn off_done(old: Engine, new: Engine, res: Result<Effect, NEditError>, target: OffTarget) -> bool {
        if target == OffTarget::Open {
            res matches Ok(eff) && Engine::flushed(old, new, eff)
        } else {
            Engine::off_scope_done(old, new, res)
        }
    }

    /// Runs an `Off`: closes the innermost block, or writes everything
    /// back (`Off:Open`).
    fn execute_off(&mut self, target: OffTarget) -> (res: Result<Effect, NEditError>)
        requires
            old(self).off_safe(target),
        ensures
            Engine::off_done(*old(self), *final(self), res, target),
    {
        match target {
            OffTarget::Location | OffTarget::New => {
                if self.block_stack.len() == 0 {
                    return Err(NEditError::Engine(EngineError::BlockStackEmpty));
                }
                let ghost st = self.blocks();
                let popped_block = self.block_stack.pop().unwrap();
                assert(self.blocks().push(popped_block@) =~= st);
                self.write_back_to_parent(popped_block);
                Ok(Effect::Nothing)
            },
            OffTarget::Open => Ok(self.write_back_to_file()),
        }
    }

    /// The implicit `Off:Open` at the end of a script: writes everything
    /// back when a file is open.
    fn handle_implicit_off(&mut self) -> (res: Effect)
        requires
            collapsible(old(self).blocks(), old(self).file_lines()),
        ensures
            old(self).file is Some ==> Engine::flushed(*old(self), *final(self), res),
            old(self).file is None ==> res is Nothing && *final(self) == *old(self),
    {
        if self.file.is_some() {
            self.write_back_to_file()
        } else {
            Effect::Nothing
        }
    }

    /// Opens a file whose text the caller read: the file is parsed into
    /// lines and becomes the file that is written back.
    pub fn open_text(&mut self, file_path: &str, text: &str)
        ensures
            final(self).file_path matches Some(p) && p@ == file_path@,
            final(self).file matches Some(f) && contents(f.lines@) == text_lines(text@) && fresh_lines(f.lines@),
            final(self).block_stack == old(self).block_stack,
            final(self).diff_lines == old(self).diff_lines,
            final(self).last_diff_block_key == old(self).last_diff_block_key,
            final(self).verbose == old(self).verbose,
    {
        let file = FileContent::from_text(text);
        self.file_path = Some(String::from_str(file_path));
        self.file = Some(file);
    }

    /// A command can run without a panic.
    pub open spec fn command_safe(&self, command: Command) -> bool {
        match command {
            Command::New { position, content } => self.new_safe(position, content.lines@.len() as int),
            Command::Delete { block, line_range, .. } => self.delete_safe(block, line_range),
            Command::Off { target } => self.off_safe(target),
            _ => true,
        }
    }

    /// What a command did. `Open` only asks the caller to read the file;
    /// `Raw` has been folded into `New` / `Delete` already and does nothing.
    pub open spec fn command_done(old: Engine, new: Engine, res: Result<Effect, NEditError>, command: Command) -> bool {
        match command {
            Command::Open { file_path } => res matches Ok(Effect::ReadFile { path }) && path == file_path && new == old,
            Command::Location { block, line_range, content } => {
                &&& nothing_to_do(res)
                &&& Engine::location_done(old, new, unit_of(res), content, block, line_range)
            },
            Command::New { position, content } => {
                &&& nothing_to_do(res)
                &&& Engine::new_done(old, new, unit_of(res), position, content.lines@)
            },
            Command::Delete { block, line_range, content } => {
                &&& nothing_to_do(res)
                &&& Engine::delete_done(old, new, unit_of(res), block, content, line_range)
            },
            Command::Raw { .. } => res matches Ok(Effect::Nothing) && new == old,
            Command::Off { target } => Engine::off_done(old, new, res, target),
        }
    }

    /// Runs one command and says what the caller has to do next: read the
    /// file of an `Open` (then call `open_text`), or write the file back
    /// after `Off:Open`.
    pub fn run_command(&mut self, command: &Command) -> (res: Result<Effect, NEditError>)
        requires
            old(self).command_safe(*command),
        ensures
            Engine::command_done(*old(self), *final(self), res, *command),
    {
        match command {
            Command::Open { file_path } => Ok(Effect::ReadFile { path: file_path.clone() }),
            Command::Location { block, line_range, content } => {
                match self.execute_location(content, *block, *line_range) {
                    Ok(()) => Ok(Effect::Nothing),
                    Err(e) => Err(e),
                }
            },
            Command::New { position, content } => {
                match self.execute_new(*position, content) {
                    Ok(()) => Ok(Effect::Nothing),
                    Err(e) => Err(e),
                }
            },
            Command::Delete { block, line_range, content } => {
                match self.execute_delete(*block, content.as_ref(), *line_range) {
                    Ok(()) => Ok(Effect::Nothing),
                    Err(e) => Err(e),
                }
            },
            Command::Raw { .. } => Ok(Effect::Nothing),
            Command::Off { target } => self.execute_off(*target),
        }
    }

    /// Whether merging the whole stack down cannot panic.
    pub fn can_finish(&self) -> (res: bool)
        ensures
            res == collapsible(self.blocks(), self.file_lines()),
    {
        let n = self.block_stack.len();
        let mut k: usize = 0;
        while k < n && k < n - 1
            invariant
                n == self.block_stack@.len(),
                k <= n,
                forall|q: int| 0 <= q < k ==> (#[trigger] self.blocks()[q]).lines.len() > 0,
            decreases n - k,
        {
            if self.block_stack[k].lines.len() == 0 {
                assert(self.blocks()[k as int].lines.len() == 0);
                return false;
            }
            k = k + 1;
        }
        if n > 0 {
            match &self.file {
                Some(f) => self.block_stack[0].start_line.to_index() <= f.lines.len(),
                None => true,
            }
        } else {
            true
        }
    }

    /// Whether merging the innermost block down cannot panic.
    fn can_pop(&self) -> (res: bool)
        ensures
            res == pop_safe(self.blocks(), self.file_lines()),
    {
        let n = self.block_stack.len();
        if n >= 2 {
            self.block_stack[n - 2].lines.len() > 0
        } else if n == 1 {
            match &self.file {
                Some(f) => self.block_stack[0].start_line.to_index() <= f.lines.len(),
                None => true,
            }
        } else {
            true
        }
    }

    /// Whether `run_command` can run `command` without a panic: a caller
    /// tests this first and stops where the command could not complete.
    pub fn is_safe(&self, command: &Command) -> (res: bool)
        ensures
            res == self.command_safe(*command),
    {
        match command {
            Command::New { position, content } => {
                if *position != NewPosition::Normal || self.block_stack.len() == 0 {
                    return true;
                }
                let top = &self.block_stack[self.block_stack.len() - 1];
                let insert_pos = match top.match_info {
                    MatchInfo::Empty => top.lines.len(),
                    MatchInfo::Location { matched_line_count } => matched_line_count,
                    MatchInfo::DeleteAt { position } => position,
                };
                insert_pos <= top.lines.len() || insert_pos - top.lines.len() <= content.lines.len()
            },
            Command::Delete { block, line_range, .. } => {
                if *block || self.block_stack.len() == 0 {
                    return true;
                }
                match line_range {
                    Some(range) => {
                        let n = self.block_stack[self.block_stack.len() - 1].lines.len();
                        let s = range.start.saturating_sub(1);
                        let last = range.end.saturating_sub(1);
                        let cap = n.saturating_sub(1);
                        let e = if last < cap { last } else { cap };
                        s >= n || s <= e + 1
                    },
                    None => true,
                }
            },
            Command::Off { target } => {
                if *target == OffTarget::Open {
                    self.can_finish()
                } else {
                    self.can_pop()
                }
            },
            _ => true,
        }
    }

    /// Ends a script: the implicit `Off:Open` merges every block down and
    /// says what to write back, when a file is open.
    pub fn finish(&mut self) -> (res: Effect)
        requires
            collapsible(old(self).blocks(), old(self).file_lines()),
        ensures
            old(self).file is Some ==> Engine::flushed(*old(self), *final(self), res),
            old(self).file is None ==> res is Nothing && *final(self) == *old(self),
    {
        self.handle_implicit_off()
    }

    /// Key of a block: its first and last line number.
    fn get_block_key(block: &ContentBlock) -> (res: (usize, usize))
        ensures
            res == block_key(block@),
    {
        (block.start_line.to_usize(), block.end_line.to_usize())
    }

    /// Key of the innermost block.
    fn get_current_block_key(&self) -> (res: Option<(usize, usize)>)
        ensures
            res == top_key(self.blocks()),
    {
        if self.block_stack.len() > 0 {
            Some(Self::get_block_key(&self.block_stack[self.block_stack.len() - 1]))
        } else {
            None
        }
    }

    /// Starts a new group in the listing when the change is in another
    /// block than the last one.
    fn insert_separator_if_needed(&mut self)
        ensures
            diff_appended(final(self).diff_lines@, old(self).diff_lines@, old(self).separator_due(), Seq::empty()),
            final(self).file == old(self).file,
            final(self).block_stack == old(self).block_stack,
            final(self).last_diff_block_key == old(self).last_diff_block_key,
            final(self).same_settings(*old(self)),
    {
        let current_key = self.get_current_block_key();
        if !same_key(current_key, self.last_diff_block_key) && self.last_diff_block_key.is_some()
            && self.diff_lines.len() > 0 {
            let ghost before = self.diff_lines@;
            self.diff_lines.push(DiffLine::separator());
            assert(self.diff_lines@.take(before.len() as int) =~= before);
            assert(self.diff_lines@.skip(before.len() as int + 1) =~= Seq::<DiffLine>::empty());
        } else {
            assert(self.diff_lines@ =~= self.diff_lines@ + Seq::<DiffLine>::empty());
        }
    }

    /// Remembers the innermost block as the one of the last change.
    fn update_diff_block_key(&mut self)
        ensures
            final(self).last_diff_block_key == top_key(old(self).blocks()),
            final(self).file == old(self).file,
            final(self).block_stack == old(self).block_stack,
            final(self).diff_lines == old(self).diff_lines,
            final(self).same_settings(*old(self)),
    {
        self.last_diff_block_key = self.get_current_block_key();
    }

    /// Records a change: a separator if it is in another block than the
    /// last one, then the context above, the changed lines and the context
    /// below.
    fn record_diff_with_context(
        &mut self,
        changed_lines: Vec<DiffLine>,
        context_above: Vec<DiffLine>,
        context_below: Vec<DiffLine>,
    )
        ensures
            diff_appended(
                final(self).diff_lines@,
                old(self).diff_lines@,
                old(self).separator_due(),
                context_above@ + changed_lines@ + context_below@,
            ),
            final(self).last_diff_block_key == top_key(old(self).blocks()),
            final(self).file == old(self).file,
            final(self).block_stack == old(self).block_stack,
            final(self).same_settings(*old(self)),
    {
        let ghost start = self.diff_lines@;
        let ghost sep = self.separator_due();
        self.insert_separator_if_needed();
        let ghost mid = self.diff_lines@;
        let mut above = context_above;
        let mut changed = changed_lines;
        let mut below = context_below;
        self.diff_lines.append(&mut above);
        self.diff_lines.append(&mut changed);
        self.diff_lines.append(&mut below);
        let ghost added = context_above@ + changed_lines@ + context_below@;
        assert(self.diff_lines@ =~= mid + added);
        proof {
            if sep {
                assert(mid =~= start.push(mid[start.len() as int]));
                assert(self.diff_lines@.take(start.len() as int) =~= start);
                assert(self.diff_lines@.skip(start.len() as int + 1) =~= added);
            }
        }
        self.update_diff_block_key();
    }

    /// Records inserted file lines, without context or grouping.
    fn record_added_lines(&mut self, entries: Vec<(usize, String)>)
        ensures
            final(self).diff_lines@ == old(self).diff_lines@ + entries_diff(entries@),
            final(self).last_diff_block_key == old(self).last_diff_block_key,
            final(self).file == old(self).file,
            final(self).block_stack == old(self).block_stack,
            final(self).same_settings(*old(self)),
    {
        let ghost start = self.diff_lines@;
        let mut i: usize = 0;
        while i < entries.len()
            invariant
                i <= entries@.len(),
                self.diff_lines@ == start + entries_diff(entries@.take(i as int)),
                self.last_diff_block_key == old(self).last_diff_block_key,
                self.file == old(self).file,
                self.block_stack == old(self).block_stack,
                self.same_settings(*old(self)),
            decreases entries@.len() - i,
        {
            let (line_num, content) = &entries[i];
            self.diff_lines.push(DiffLine {
                kind: DiffLineKind::Added,
                line_number: Some(LineNumber::new(*line_num)),
                content: content.clone(),
            });
            assert(entries_diff(entries@.take(i + 1)) =~= entries_diff(entries@.take(i as int)).push(
                entries_diff(entries@)[i as int],
            ));
            i = i + 1;
        }
        assert(entries@.take(entries@.len() as int) =~= entries@);
    }

    /// Context and new lines for lines inserted at `insert_pos`.
    fn collect_added_diff_data(block: &ContentBlock, insert_pos: usize, new_line_count: usize) -> (res: (
        Vec<DiffLine>,
        Vec<DiffLine>,
        Vec<DiffLine>,
    ))
        requires
            insert_pos <= block.lines@.len(),
        ensures
            res.1@ + res.0@ + res.2@ == added_diff(block.lines@, insert_pos as int, new_line_count as int),
    {
        let n = block.lines.len();
        let end_idx = if new_line_count > n - insert_pos { n } else { insert_pos + new_line_count };
        let context_above = collect_block_context_above(block, insert_pos);
        let context_below = collect_block_context_below(block, end_idx.saturating_sub(1));
        let changed = diff_lines_of(&block.lines, insert_pos, end_idx, DiffLineKind::Added);
        (changed, context_above, context_below)
    }

    /// Context and removed lines for the lines `start_idx..=end_idx`.
    fn collect_deleted_diff_data(block: &ContentBlock, start_idx: usize, end_idx: usize) -> (res: (
        Vec<DiffLine>,
        Vec<DiffLine>,
        Vec<DiffLine>,
    ))
        requires
            start_idx <= end_idx + 1,
            end_idx < block.lines@.len(),
        ensures
            res.1@ + res.0@ + res.2@ == deleted_diff(block.lines@, start_idx as int, end_idx as int),
    {
        let context_above = collect_block_context_above(block, start_idx);
        let context_below = collect_block_context_below(block, end_idx);
        let changed = record_deleted_lines(block, start_idx, end_idx);
        (changed, context_above, context_below)
    }
}

/// `(line number, text)` of the file lines `insert_pos..insert_pos + count`
/// (clamped to the file).
fn collect_new_file_line_info(file: &FileContent, insert_pos: usize, new_line_count: usize) -> (res: Vec<(usize, String)>)
    ensures
        res@ == line_entries(file.lines@, insert_pos as int, new_line_count as int),
{
    let n = file.lines.len();
    let ghost want = line_entries(file.lines@, insert_pos as int, new_line_count as int);
    if insert_pos >= n {
        assert(want =~= Seq::<(usize, String)>::empty());
        return Vec::new();
    }
    let end = if new_line_count > n - insert_pos { n } else { insert_pos + new_line_count };
    assert(want.len() == end - insert_pos);
    let mut out: Vec<(usize, String)> = Vec::new();
    let mut i = insert_pos;
    while i < end
        invariant
            insert_pos <= i <= end <= n == file.lines@.len(),
            want == line_entries(file.lines@, insert_pos as int, new_line_count as int),
            want.len() == end - insert_pos,
            out@ == want.take(i - insert_pos),
        decreases end - i,
    {
        out.push((file.lines[i].line_num.to_usize(), file.lines[i].content.clone()));
        assert(want[i - insert_pos] == (file.lines@[i as int].line_num.0, file.lines@[i as int].content));
        assert(out@ =~= want.take(i + 1 - insert_pos));
        i = i + 1;
    }
    assert(line_entries(file.lines@, insert_pos as int, new_line_count as int).take(i - insert_pos)
        =~= line_entries(file.lines@, insert_pos as int, new_line_count as int));
    out
}

// ------------------------------------------------------------------
// Echoing commands
// ------------------------------------------------------------------

/// `true` / `false`, as `Display` prints a `bool`.
pub open spec fn bool_text(b: bool) -> Seq<char> {
    if b { "true"@ } else { "false"@ }
}

/// The name of an insert position, as `Debug` prints it.
pub open spec fn position_name(p: NewPosition) -> Seq<char> {
    match p {
        NewPosition::Normal => "Normal"@,
        NewPosition::Start => "Start"@,
        NewPosition::End => "End"@,
    }
}

/// The name of an `Off` target, as `Debug` prints it.
pub open spec fn target_name(t: OffTarget) -> Seq<char> {
    match t {
        OffTarget::Open => "Open"@,
        OffTarget::Location => "Location"@,
        OffTarget::New => "New"@,
    }
}

/// The first line of a `Location`, or nothing.
pub open spec fn first_location_text(c: LocationContent) -> Seq<char> {
    if c.lines@.len() > 0 { c.lines@[0].content@ } else { Seq::empty() }
}

/// Longest echoed `Location` line (bytes) and what is kept of a longer one.
pub const ECHO_LOCATION_MAX_LEN: usize = 50;

/// Longest echoed `Raw` text (bytes) and what is kept of a longer one.
pub const ECHO_RAW_MAX_LEN: usize = 30;

/// The line verbose mode prints before a command runs.
pub open spec fn echo_text(c: Command) -> Seq<char> {
    "[verbose] 执行 "@ + match c {
        Command::Open { file_path } => "Open: "@ + file_path@,
        Command::Location { block, line_range, content } => "Location:Block="@ + bool_text(block) + match line_range {
            Some(r) => " @"@ + decimal(r.start as nat) + ","@ + decimal(r.end as nat),
            None => " \""@ + abbreviated(
                first_location_text(content),
                ECHO_LOCATION_MAX_LEN as nat,
                (ECHO_LOCATION_MAX_LEN - 3) as nat,
            ) + "\""@,
        },
        Command::New { position, content } => "New:"@ + position_name(position) + " ("@ + decimal(
            content.lines@.len(),
        ) + " 行)"@,
        Command::Delete { block, line_range, content } => match line_range {
            Some(r) => "Delete:@"@ + decimal(r.start as nat) + ","@ + decimal(r.end as nat),
            None => if block {
                "Delete:Block"@
            } else {
                "Delete ("@ + decimal(
                    match content {
                        Some(d) => d.lines@.len(),
                        None => 0,
                    },
                ) + " 行)"@
            },
        },
        Command::Raw { content } => "Raw: \""@ + abbreviated(
            content@,
            ECHO_RAW_MAX_LEN as nat,
            (ECHO_RAW_MAX_LEN - 3) as nat,
        ) + "\""@,
        Command::Off { target } => "Off:"@ + target_name(target),
    }
}

/// The first line of a `Location`, or an empty text.
fn first_location_line(content: &LocationContent) -> (res: &str)
    ensures
        res@ == first_location_text(*content),
{
    if content.lines.len() > 0 {
        content.lines[0].content.as_str()
    } else {
        proof { reveal_strlit(""); }
        ""
    }
}

/// Appends `true` or `false`.
fn push_bool(out: &mut String, b: bool)
    ensures
        final(out)@ == old(out)@ + bool_text(b),
{
    if b {
        push_text(out, "true");
    } else {
        push_text(out, "false");
    }
}

impl Engine {
    /// The line verbose mode prints before running `command`.
    pub fn echo_line(command: &Command) -> (res: String)
        ensures
            res@ == echo_text(*command),
    {
        let mut out = String::new();
        push_text(&mut out, "[verbose] 执行 ");
        match command {
            Command::Open { file_path } => {
                push_text(&mut out, "Open: ");
                push_text(&mut out, file_path.as_str());
            },
            Command::Location { block, line_range, content } => {
                push_text(&mut out, "Location:Block=");
                push_bool(&mut out, *block);
                match line_range {
                    Some(r) => {
                        push_text(&mut out, " @");
                        push_decimal(&mut out, r.start);
                        push_text(&mut out, ",");
                        push_decimal(&mut out, r.end);
                    },
                    None => {
                        push_text(&mut out, " \"");
                        let shown = abbreviate(first_location_line(content), ECHO_LOCATION_MAX_LEN, ECHO_LOCATION_MAX_LEN - 3);
                        push_text(&mut out, shown.as_str());
                        push_text(&mut out, "\"");
                    },
                }
            },
            Command::New { position, content } => {
                push_text(&mut out, "New:");
                match position {
                    NewPosition::Normal => push_text(&mut out, "Normal"),
                    NewPosition::Start => push_text(&mut out, "Start"),
                    NewPosition::End => push_text(&mut out, "End"),
                }
                push_text(&mut out, " (");
                push_decimal(&mut out, content.lines.len());
                push_text(&mut out, " 行)");
            },
            Command::Delete { block, line_range, content } => {
                match line_range {
                    Some(r) => {
                        push_text(&mut out, "Delete:@");
                        push_decimal(&mut out, r.start);
                        push_text(&mut out, ",");
                        push_decimal(&mut out, r.end);
                    },
                    None => {
                        if *block {
                            push_text(&mut out, "Delete:Block");
                        } else {
                            let count = match content {
                                Some(d) => d.lines.len(),
                                None => 0,
                            };
                            push_text(&mut out, "Delete (");
                            push_decimal(&mut out, count);
                            push_text(&mut out, " 行)");
                        }
                    },
                }
            },
            Command::Raw { content } => {
                push_text(&mut out, "Raw: \"");
                let shown = abbreviate(content.as_str(), ECHO_RAW_MAX_LEN, ECHO_RAW_MAX_LEN - 3);
                push_text(&mut out, shown.as_str());
                push_text(&mut out, "\"");
            },
            Command::Off { target } => {
                push_text(&mut out, "Off:");
                match target {
                    OffTarget::Open => push_text(&mut out, "Open"),
                    OffTarget::Location => push_text(&mut out, "Location"),
                    OffTarget::New => push_text(&mut out, "New"),
                }
            },
        }
        assert(out@ =~= echo_text(*command));
        out
    }
}

} // verus!
