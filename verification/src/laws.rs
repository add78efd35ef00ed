//! Properties of the library as a whole, each stated over the
//! specifications that the functions' contracts use.
use crate::block::{
    block_span, brace_end, ends_with_colon, indent_end, initial_state, is_hash_comment, scan_from, Scan, ScanState,
};
use crate::command::{Command, OffTarget};
use crate::engine::{
    applied_to_file, applied_to_parent, built_lines, collapsed, inserted, insert_position,
    collapsible, count_nonblank, delete_start, location_outcome, pop_merged, pop_safe, renumbered, written, Effect,
    Engine,
};
use crate::error::{MatchError, NEditError};
use crate::matcher::{
    all_blank_from, candidates, is_cut, is_whole_scope, match_starts, rows_agree, wanted_taps,
};
use crate::model::{
    contents, fresh_lines, joined_text, reindexed, BlockView, ContentBlock, DeleteLine, Line, LineNumber, LineRange,
    LocationContent, LocationLine, MatchInfo, NewLine,
};
use crate::script::{is_command_line, is_separator_line, lexed};
use crate::output::{
    concat, detail_rendered, diff_rendered, esc, header_rendered, hint_rendered, lacks, lemma_concat_append,
    lemma_concat_single, line_rendered, marked, plain_diff, plain_error, plain_line, reapply, reset_seq, shown,
    skip_sequence, strip_ansi, styled, error_rendered, DiffLine, DiffLineKind,
};
use crate::text::{decimal, drop_cr, is_blank, is_ws, join_with, segments, strip_ws, text_lines};
use vstd::prelude::*;

verus! {

/// Text without carriage returns.
pub open spec fn no_cr(s: Seq<char>) -> bool {
    forall|i: int| 0 <= i < s.len() ==> s[i] != '\r'
}

/// Joining the pieces between line feeds with line feeds gives the text.
proof fn lemma_segments_join(s: Seq<char>)
    ensures
        segments(s).len() >= 1,
        join_with(segments(s), seq!['\n']) == s,
    decreases s.len(),
{
    if s.len() > 0 {
        let t = s.drop_last();
        lemma_segments_join(t);
        let r = segments(t);
        if s.last() == '\n' {
            assert(r.push(Seq::empty()).drop_last() =~= r);
            assert(join_with(r.push(Seq::empty()), seq!['\n']) =~= t + seq!['\n'] + Seq::<char>::empty());
            assert(t + seq!['\n'] + Seq::<char>::empty() =~= s);
        } else {
            let u = r.update(r.len() - 1, r.last().push(s.last()));
            if r.len() == 1 {
                assert(join_with(u, seq!['\n']) == u[0]);
                assert(u[0] =~= t.push(s.last()));
            } else {
                assert(u.drop_last() =~= r.drop_last());
                assert(join_with(u, seq!['\n']) == join_with(r.drop_last(), seq!['\n']) + seq!['\n'] + r.last().push(s.last()));
                assert(join_with(r, seq!['\n']) == join_with(r.drop_last(), seq!['\n']) + seq!['\n'] + r.last());
            }
            assert(t.push(s.last()) =~= s);
        }
    }
}

/// Every piece between line feeds of a text without carriage returns has
/// none either.
proof fn lemma_segments_no_cr(s: Seq<char>)
    requires
        no_cr(s),
    ensures
        forall|i: int| 0 <= i < segments(s).len() ==> no_cr(#[trigger] segments(s)[i]),
    decreases s.len(),
{
    if s.len() > 0 {
        let t = s.drop_last();
        assert(no_cr(t));
        lemma_segments_no_cr(t);
        lemma_segments_join(t);
        let r = segments(t);
        if s.last() != '\n' {
            assert(segments(s) == r.update(r.len() - 1, r.last().push(s.last())));
            assert forall|i: int| 0 <= i < segments(s).len() implies no_cr(#[trigger] segments(s)[i]) by {
                if i == r.len() - 1 {
                    let x = r[i].push(s.last());
                    assert(no_cr(r[i]));
                    assert(s[s.len() - 1] != '\r');
                    assert forall|j: int| 0 <= j < x.len() implies x[j] != '\r' by {
                        if j < r[i].len() {
                            assert(x[j] == r[i][j]);
                        }
                    }
                    assert(segments(s)[i] == x);
                }
            }
        } else {
            assert(segments(s) == r.push(Seq::<char>::empty()));
            assert forall|i: int| 0 <= i < segments(s).len() implies no_cr(#[trigger] segments(s)[i]) by {
                if i < r.len() {
                    assert(segments(s)[i] == r[i]);
                }
            }
        }
    }
}

/// Writing lines back puts a line feed after each one.
proof fn lemma_joined_text_is_join(parts: Seq<Seq<char>>)
    requires
        parts.len() >= 1,
    ensures
        joined_text(parts) == join_with(parts, seq!['\n']) + seq!['\n'],
    decreases parts.len(),
{
    if parts.len() > 1 {
        let d = parts.drop_last();
        lemma_joined_text_is_join(d);
        assert(joined_text(parts) == joined_text(d) + parts.last().push('\n'));
        assert(join_with(parts, seq!['\n']) == join_with(d, seq!['\n']) + seq!['\n'] + parts.last());
        let a = join_with(d, seq!['\n']);
        let l = parts.last();
        assert(joined_text(d) == a + seq!['\n']);
        assert(l.push('\n') =~= l + seq!['\n']);
        assert((a + seq!['\n']) + (l + seq!['\n']) =~= ((a + seq!['\n']) + l) + seq!['\n']);
    } else {
        assert(parts.drop_last() =~= Seq::<Seq<char>>::empty());
        assert(joined_text(parts.drop_last()) =~= Seq::<char>::empty());
        assert(joined_text(parts) == Seq::<char>::empty() + parts[0].push('\n'));
        assert(join_with(parts, seq!['\n']) == parts[0]);
        assert(joined_text(parts) =~= join_with(parts, seq!['\n']) + seq!['\n']);
    }
}

/// Reading a text into lines and writing the lines back gives the text
/// again, when the text has no carriage return and is empty or ends with a
/// line feed.
pub proof fn law_read_then_write_gives_text(text: Seq<char>)
    requires
        no_cr(text),
        text.len() == 0 || text.last() == '\n',
    ensures
        joined_text(text_lines(text)) == text,
{
    if text.len() == 0 {
        assert(text_lines(text) =~= Seq::<Seq<char>>::empty());
        assert(joined_text(text_lines(text)) =~= text);
    } else {
        let t = text.drop_last();
        assert(no_cr(t));
        lemma_segments_join(t);
        lemma_segments_no_cr(t);
        let r = segments(t);
        assert(segments(text) == r.push(Seq::<char>::empty()));
        assert(segments(text).drop_last() =~= r);
        assert forall|i: int| 0 <= i < r.len() implies drop_cr(#[trigger] r[i]) == r[i] by {
            assert(no_cr(r[i]));
            if r[i].len() > 0 {
                assert(r[i][r[i].len() - 1] != '\r');
            }
        }
        assert(text_lines(text) =~= r);
        lemma_joined_text_is_join(r);
        assert(t + seq!['\n'] =~= text);
    }
}

// ------------------------------------------------------------------
// Putting blocks back
// ------------------------------------------------------------------

/// Two lines hold the same text with the same indentation.
pub open spec fn same_text(a: Line, b: Line) -> bool {
    &&& a.taps == b.taps
    &&& a.content == b.content
    &&& a.stripped_content == b.stripped_content
}

/// Two line lists hold the same texts, line for line.
pub open spec fn same_texts(x: Seq<Line>, y: Seq<Line>) -> bool {
    &&& x.len() == y.len()
    &&& forall|i: int| 0 <= i < x.len() ==> same_text(#[trigger] x[i], y[i])
}

/// Renumbering looks at the texts only.
proof fn lemma_reindexed_by_text(x: Seq<Line>, y: Seq<Line>, first: int)
    requires
        same_texts(x, y),
    ensures
        reindexed(x, first) == reindexed(y, first),
{
    if x.len() > 0 {
        assert(same_text(x[0], y[0]));
    }
    assert forall|i: int| 0 <= i < x.len() implies reindexed(x, first)[i] == reindexed(y, first)[i] by {
        assert(same_text(x[i], y[i]));
    }
    assert(reindexed(x, first) =~= reindexed(y, first));
}

/// Renumbering keeps the texts.
proof fn lemma_reindexed_keeps_text(x: Seq<Line>, first: int)
    ensures
        same_texts(reindexed(x, first), x),
{
}

/// Lines as reading a file makes them are numbered from 1: renumbering
/// them changes nothing.
pub proof fn law_read_lines_are_numbered(lines: Seq<Line>)
    requires
        fresh_lines(lines),
    ensures
        renumbered(lines) == lines,
{
    assert forall|i: int| 0 <= i < lines.len() implies renumbered(lines)[i] == lines[i] by {
        assert(lines[i].line_num.0 == i + 1);
        assert(lines[0].line_num.0 == 1);
    }
    assert(renumbered(lines) =~= lines);
}

/// Lines numbered consecutively from `first`.
pub open spec fn numbered_from(lines: Seq<Line>, first: int) -> bool {
    &&& reindexed(lines, first) == lines
    &&& first >= 1
    &&& first + lines.len() <= usize::MAX + 1
}

/// The parts of `lines` before `s` and after `e` around `mid`, which
/// holds the texts of `lines[s..=e]`, hold the texts of `lines`.
proof fn lemma_spliced_same_texts(lines: Seq<Line>, mid: Seq<Line>, s: int, e: int)
    requires
        0 <= s <= e < lines.len(),
        same_texts(mid, lines.subrange(s, e + 1)),
    ensures
        same_texts(lines.take(s) + mid + lines.skip(e + 1), lines),
{
    let x = lines.take(s) + mid + lines.skip(e + 1);
    assert forall|i: int| 0 <= i < x.len() implies same_text(#[trigger] x[i], lines[i]) by {
        if s <= i <= e {
            assert(same_text(mid[i - s], lines.subrange(s, e + 1)[i - s]));
        }
    }
}

/// Putting a block cut out of the file back unchanged leaves the file as
/// it was.
pub proof fn law_cut_block_put_back_keeps_file(lines: Seq<Line>, b: ContentBlock, s: int, e: int, m: int)
    requires
        numbered_from(lines, 1),
        is_cut(b, lines, s, e, m),
    ensures
        applied_to_file(lines, b@) == lines,
{
    assert(lines[s].line_num == reindexed(lines, 1)[s].line_num);
    assert(lines[e].line_num == reindexed(lines, 1)[e].line_num);
    lemma_reindexed_keeps_text(lines.subrange(s, e + 1), lines[s].line_num.0 as int);
    lemma_spliced_same_texts(lines, b.lines@, s, e);
    lemma_reindexed_by_text(lines.take(s) + b.lines@ + lines.skip(e + 1), lines, 1);
}

/// Putting the whole file, taken by an empty `Location`, back unchanged
/// leaves the file as it was.
pub proof fn law_whole_scope_put_back_keeps_file(lines: Seq<Line>, b: ContentBlock)
    requires
        numbered_from(lines, 1),
        is_whole_scope(b, lines),
    ensures
        applied_to_file(lines, b@) == lines,
{
    if lines.len() > 0 {
        assert(lines[0].line_num == reindexed(lines, 1)[0].line_num);
        let n = lines.len() - 1;
        assert(lines[n].line_num == reindexed(lines, 1)[n].line_num);
        assert(lines.take(0) + b.lines@ + lines.skip(lines.len() as int) =~= lines);
    } else {
        assert(lines.take(0) + b.lines@ + lines.skip(0) =~= lines);
    }
}

/// Putting a block cut out of an enclosing block back unchanged leaves the
/// enclosing block as it was.
pub proof fn law_cut_block_put_back_keeps_parent(outer: BlockView, b: ContentBlock, s: int, e: int, m: int)
    requires
        numbered_from(outer.lines, outer.start_line.0 as int),
        is_cut(b, outer.lines, s, e, m),
    ensures
        applied_to_parent(outer, b@) == outer,
{
    let lines = outer.lines;
    let first = outer.start_line.0 as int;
    assert(lines[s].line_num == reindexed(lines, first)[s].line_num);
    assert(lines[e].line_num == reindexed(lines, first)[e].line_num);
    lemma_reindexed_keeps_text(lines.subrange(s, e + 1), lines[s].line_num.0 as int);
    lemma_spliced_same_texts(lines, b.lines@, s, e);
    lemma_reindexed_by_text(lines.take(s) + b.lines@ + lines.skip(e + 1), lines, first);
}

/// The block a successful `Location` yields is a cut of the scope, or the
/// whole scope; the result names the cut.
proof fn lemma_location_is_cut(
    b: ContentBlock,
    lines: Seq<Line>,
    content: LocationContent,
    block: bool,
    range: Option<LineRange>,
) -> (r: (int, int, int))
    requires
        location_outcome(Ok(b), lines, content, block, range),
    ensures
        is_whole_scope(b, lines) || is_cut(b, lines, r.0, r.1, r.2),
{
    match range {
        Some(rg) => {
            let n = lines.len() as int;
            let st = crate::model::sat_sub(rg.start as int, 1) as int;
            let e1 = crate::model::sat_sub(rg.end as int, 1) as int;
            let cap = crate::model::sat_sub(n, 1) as int;
            let e0 = if e1 < cap { e1 } else { cap };
            if block {
                match crate::block::block_span(lines, st) {
                    Some((bs, be)) => (bs, be, be - bs + 1),
                    None => (0, 0, 0),
                }
            } else {
                (st, e0, e0 - st + 1)
            }
        },
        None => {
            if content.lines@.len() == 0 {
                (0, 0, 0)
            } else {
                let c = candidates(lines, content.lines@);
                match crate::matcher::span_for(lines, c[0], block) {
                    Some((s, e)) => (s, e, if block { e - s + 1 } else { content.lines@.len() as int }),
                    None => (0, 0, 0),
                }
            }
        },
    }
}

/// Closing a `Location` right after it was opened leaves the file as it
/// was.
pub proof fn law_location_then_off_keeps_file(
    e0: Engine,
    e1: Engine,
    e2: Engine,
    content: LocationContent,
    block: bool,
    range: Option<LineRange>,
    res: Result<Effect, NEditError>,
)
    requires
        e0.block_stack@.len() == 0,
        e0.file matches Some(f) && numbered_from(f.lines@, 1),
        Engine::location_done(e0, e1, Ok(()), content, block, range),
        Engine::off_done(e1, e2, res, OffTarget::Location),
    ensures
        e2.block_stack@.len() == 0,
        e2.file_lines() == e0.file_lines(),
{
    let lines = e0.file->0.lines@;
    let b = e1.block_stack@.last();
    let r = lemma_location_is_cut(b, lines, content, block, range);
    if is_whole_scope(b, lines) {
        law_whole_scope_put_back_keeps_file(lines, b);
    } else {
        law_cut_block_put_back_keeps_file(lines, b, r.0, r.1, r.2);
    }
    assert(e1.blocks().len() == 1);
    assert(e1.blocks()[0] == b@);
    assert(e2.blocks().len() == e2.block_stack@.len());
}

/// Closing a nested `Location` right after it was opened leaves the
/// enclosing block as it was.
pub proof fn law_nested_location_then_off_keeps_parent(
    e0: Engine,
    e1: Engine,
    e2: Engine,
    content: LocationContent,
    block: bool,
    range: Option<LineRange>,
    res: Result<Effect, NEditError>,
)
    requires
        e0.block_stack@.len() > 0,
        e0.block_stack@.last().lines@.len() > 0,
        numbered_from(e0.block_stack@.last().lines@, e0.block_stack@.last().start_line.0 as int),
        Engine::location_done(e0, e1, Ok(()), content, block, range),
        Engine::off_done(e1, e2, res, OffTarget::Location),
    ensures
        e2.blocks() == e0.blocks(),
        e2.file_lines() == e0.file_lines(),
{
    let outer = e0.block_stack@.last()@;
    let lines = outer.lines;
    let b = e1.block_stack@.last();
    let r = lemma_location_is_cut(b, lines, content, block, range);
    let n = e1.blocks().len() as int;
    assert(e1.blocks()[n - 1] == b@);
    assert(e1.blocks()[n - 2] == outer);
    if is_whole_scope(b, lines) {
        let k = lines.len() - 1;
        assert(lines.subrange(0, k + 1) =~= lines);
        assert(lines[0].line_num == reindexed(lines, outer.start_line.0 as int)[0].line_num);
        law_cut_block_put_back_keeps_parent(outer, b, 0, k, 0);
    } else {
        law_cut_block_put_back_keeps_parent(outer, b, r.0, r.1, r.2);
    }
    assert(e2.blocks() =~= e0.blocks());
}

// ------------------------------------------------------------------
// Replacing lines
// ------------------------------------------------------------------

/// A `Delete` followed by a `New` replaces the removed lines with the new
/// ones: the block holds the lines before the removed ones, the new lines,
/// and the lines after them.
pub proof fn law_delete_then_new_replaces(e0: Engine, e1: Engine, e2: Engine, s: int, e: int, content: Seq<NewLine>)
    requires
        e0.block_stack@.len() > 0,
        0 <= s <= e < e0.block_stack@.last().lines@.len() <= usize::MAX,
        Engine::lines_removed(e0, e1, s, e),
        Engine::new_normal_done(e1, e2, Ok(()), content),
    ensures
        exists|mid: Seq<Line>|
            #[trigger] built_lines(mid, content) && e2.block_stack@.last().lines@ == reindexed(
                e0.block_stack@.last().lines@.take(s) + mid + e0.block_stack@.last().lines@.skip(e + 1),
                e0.block_stack@.last().start_line.0 as int,
            ),
{
    let b0 = e0.block_stack@.last();
    let first = b0.start_line.0 as int;
    let x = b0.lines@.take(s) + b0.lines@.skip(e + 1);
    let l1 = e1.block_stack@.last().lines@;
    assert(l1 == reindexed(x, first));
    assert(insert_position(e1.block_stack@.last()@) == s);
    let mid = choose|mid: Seq<Line>|
        #[trigger] built_lines(mid, content) && e2.block_stack@.last().lines@ == reindexed(l1.take(s) + mid + l1.skip(s), first);
    lemma_reindexed_keeps_text(x, first);
    let y = l1.take(s) + mid + l1.skip(s);
    let z = b0.lines@.take(s) + mid + b0.lines@.skip(e + 1);
    assert forall|i: int| 0 <= i < y.len() implies same_text(#[trigger] y[i], z[i]) by {
        if i < s {
            assert(same_text(l1[i], x[i]));
        } else if i >= s + mid.len() {
            assert(same_text(l1[i - mid.len()], x[i - mid.len()]));
        }
    }
    lemma_reindexed_by_text(y, z, first);
    assert(built_lines(mid, content));
}

/// A `New` after `Delete:Block` inserts where the block was: its lines
/// come first, before the one empty line that the deleted block left.
pub proof fn law_block_delete_then_new_inserts_in_its_place(e0: Engine, e1: Engine, e2: Engine, content: Seq<NewLine>)
    requires
        Engine::block_delete_done(e0, e1, Ok(())),
        Engine::new_normal_done(e1, e2, Ok(()), content),
    ensures
        e0.block_stack@.len() > 0,
        exists|mid: Seq<Line>|
            #[trigger] built_lines(mid, content) && e2.block_stack@.last().lines@ == reindexed(
                mid + e1.block_stack@.last().lines@,
                e0.block_stack@.last().start_line.0 as int,
            ),
        e1.block_stack@.last().lines@.len() == 1,
        e1.block_stack@.last().lines@[0].content@ == Seq::<char>::empty(),
{
    let l1 = e1.block_stack@.last().lines@;
    let first = e1.block_stack@.last().start_line.0 as int;
    assert(insert_position(e1.block_stack@.last()@) == 0);
    let mid = choose|mid: Seq<Line>|
        #[trigger] built_lines(mid, content) && e2.block_stack@.last().lines@ == reindexed(l1.take(0) + mid + l1.skip(0), first);
    assert(l1.take(0) + mid + l1.skip(0) =~= mid + l1);
    assert(built_lines(mid, content));
}

// ------------------------------------------------------------------
// Matching
// ------------------------------------------------------------------

/// Two location lines ask the same of a file line: same blankness, same
/// whitespace-free content, same relative indentation.
pub open spec fn same_shape(a: LocationLine, b: LocationLine) -> bool {
    &&& is_blank(a.content@) == is_blank(b.content@)
    &&& strip_ws(a.content@) == strip_ws(b.content@)
    &&& wanted_taps(a) == wanted_taps(b)
}

/// Two locations ask the same, line for line.
pub open spec fn same_shapes(a: Seq<LocationLine>, b: Seq<LocationLine>) -> bool {
    &&& a.len() == b.len()
    &&& forall|i: int| 0 <= i < a.len() ==> same_shape(#[trigger] a[i], b[i])
}

proof fn lemma_rows_agree_same_shape(
    lines: Seq<Line>,
    start: int,
    base: usize,
    a: Seq<LocationLine>,
    b: Seq<LocationLine>,
    fi: int,
    li: int,
)
    requires
        same_shapes(a, b),
    ensures
        rows_agree(lines, start, base, a, fi, li) == rows_agree(lines, start, base, b, fi, li),
    decreases lines.len() - start - fi + a.len() - li,
{
    if fi < 0 || li < 0 || li >= a.len() {
    } else if start + fi >= lines.len() {
        if all_blank_from(a, li) {
            assert forall|j: int| li <= j < b.len() implies is_blank(#[trigger] b[j].content@) by {
                assert(same_shape(a[j], b[j]));
                assert(is_blank(a[j].content@));
            }
        }
        if all_blank_from(b, li) {
            assert forall|j: int| li <= j < a.len() implies is_blank(#[trigger] a[j].content@) by {
                assert(same_shape(a[j], b[j]));
                assert(is_blank(b[j].content@));
            }
        }
    } else {
        assert(same_shape(a[li], b[li]));
        lemma_rows_agree_same_shape(lines, start, base, a, b, fi + 1, li + 1);
        lemma_rows_agree_same_shape(lines, start, base, a, b, fi + 1, li);
        lemma_rows_agree_same_shape(lines, start, base, a, b, fi, li + 1);
    }
}

proof fn lemma_match_starts_same_shape(lines: Seq<Line>, a: Seq<LocationLine>, b: Seq<LocationLine>, n: int)
    requires
        same_shapes(a, b),
        a.len() > 0,
    ensures
        match_starts(lines, a, n) == match_starts(lines, b, n),
    decreases n,
{
    if n > 0 {
        lemma_match_starts_same_shape(lines, a, b, n - 1);
        lemma_rows_agree_same_shape(lines, n - 1, lines[n - 1].taps, a, b, 0, 0);
        assert(same_shape(a[0], b[0]));
    }
}

/// Matching looks only at what the location asks of each line: the
/// whitespace-free content, blankness and relative indentation. Two
/// locations that differ in nothing else match at the same places.
pub proof fn law_matching_ignores_whitespace(lines: Seq<Line>, a: Seq<LocationLine>, b: Seq<LocationLine>)
    requires
        same_shapes(a, b),
        a.len() > 0,
    ensures
        candidates(lines, a) == candidates(lines, b),
{
    lemma_match_starts_same_shape(lines, a, b, lines.len() as int);
}

// ------------------------------------------------------------------
// The engine as a whole
// ------------------------------------------------------------------

/// Only `Off:Open` asks for the file to be written: every other command
/// edits in memory.
pub proof fn law_only_closing_the_file_writes(old: Engine, new: Engine, res: Result<Effect, NEditError>, command: Command)
    requires
        Engine::command_done(old, new, res, command),
        res matches Ok(Effect::WriteFile { .. }),
    ensures
        command matches Command::Off { target: OffTarget::Open },
{
}

/// A command that fails leaves the engine as it was: nothing of a failed
/// edit reaches the file.
pub proof fn law_failed_command_changes_nothing(old: Engine, new: Engine, e: NEditError, command: Command)
    requires
        Engine::command_done(old, new, Err(e), command),
    ensures
        new == old,
{
}

/// Opening a file and closing it with no edit in between writes back the
/// text that was read (for text without carriage returns that is empty or
/// ends with a line feed).
pub proof fn law_open_then_close_writes_same_text(e1: Engine, e2: Engine, eff: Effect, text: Seq<char>)
    requires
        e1.file matches Some(f) && contents(f.lines@) == text_lines(text),
        e1.file_path is Some,
        e1.block_stack@.len() == 0,
        Engine::flushed(e1, e2, eff),
        no_cr(text),
        text.len() == 0 || text.last() == '\n',
    ensures
        eff matches Effect::WriteFile { text: written_text, .. } && written_text@ == text,
{
    assert(e1.blocks() =~= Seq::<BlockView>::empty());
    law_read_then_write_gives_text(text);
}

// ------------------------------------------------------------------
// Line numbering
// ------------------------------------------------------------------

/// Renumbering twice is renumbering once.
proof fn lemma_reindexed_idempotent(x: Seq<Line>, first: int)
    ensures
        reindexed(reindexed(x, first), first) == reindexed(x, first),
{
    assert(reindexed(reindexed(x, first), first) =~= reindexed(x, first));
}

/// The file lines are numbered from 1 and every open block's lines from
/// its first line number, indentation relative to the first line.
pub open spec fn numbering_ok(e: Engine) -> bool {
    &&& (e.file matches Some(f) ==> reindexed(f.lines@, 1) == f.lines@)
    &&& forall|k: int|
        0 <= k < e.block_stack@.len() ==> reindexed(
            (#[trigger] e.block_stack@[k]).lines@,
            e.block_stack@[k].start_line.0 as int,
        ) == e.block_stack@[k].lines@
}

/// A file just opened, with no block open yet, is numbered: together
/// with `law_commands_keep_numbering`, numbering holds in every state of a
/// run.
pub proof fn law_opened_file_is_numbered(e: Engine)
    requires
        e.file matches Some(f) && fresh_lines(f.lines@),
        e.block_stack@.len() == 0,
    ensures
        numbering_ok(e),
{
    law_read_lines_are_numbered(e.file->0.lines@);
}

/// A block view is numbered from its first line number.
pub open spec fn view_numbered(b: BlockView) -> bool {
    reindexed(b.lines, b.start_line.0 as int) == b.lines
}

proof fn lemma_collapsed_numbered(st: Seq<BlockView>, file: Option<Seq<Line>>)
    requires
        file matches Some(f) ==> reindexed(f, 1) == f,
    ensures
        collapsed(st, file) matches Some(f) ==> reindexed(f, 1) == f,
    decreases st.len(),
{
    if st.len() > 0 {
        let next = pop_merged(st, file);
        if st.len() == 1 {
            if let Some(f) = file {
                let (s, c) = crate::engine::file_span(f.len() as int, st[0]);
                lemma_reindexed_idempotent(f.take(s) + st[0].lines + f.skip(s + c), 1);
            }
        }
        lemma_collapsed_numbered(next.0, next.1);
    }
}

/// A block the scope yields to a `Location` is numbered from its first
/// line number when the scope is numbered from its first line number.
proof fn lemma_located_block_numbered(
    b: ContentBlock,
    lines: Seq<Line>,
    first: int,
    content: LocationContent,
    block: bool,
    range: Option<LineRange>,
)
    requires
        location_outcome(Ok(b), lines, content, block, range),
        reindexed(lines, first) == lines,
        0 <= first <= usize::MAX,
    ensures
        view_numbered(b@),
{
    let r = lemma_location_is_cut(b, lines, content, block, range);
    if is_whole_scope(b, lines) {
        if lines.len() > 0 {
            assert(lines[0].line_num == reindexed(lines, first)[0].line_num);
        } else {
            assert(reindexed(b.lines@, b.start_line.0 as int) =~= b.lines@);
        }
    } else {
        lemma_reindexed_idempotent(lines.subrange(r.0, r.1 + 1), lines[r.0].line_num.0 as int);
    }
}

/// Lines built by inserting are numbered from where they were numbered.
proof fn lemma_inserted_numbered(res: Seq<Line>, old: Seq<Line>, pos: int, content: Seq<NewLine>, first: int)
    requires
        inserted(res, old, pos, content, first),
    ensures
        reindexed(res, first) == res,
{
    let mid = choose|mid: Seq<Line>| #[trigger] built_lines(mid, content) && res == reindexed(old.take(pos) + mid + old.skip(pos), first);
    lemma_reindexed_idempotent(old.take(pos) + mid + old.skip(pos), first);
}

/// When only the innermost block changed and it is numbered, the engine
/// is numbered.
proof fn lemma_top_edit_numbered(old: Engine, new: Engine)
    requires
        Engine::top_edited(old, new),
        numbering_ok(old),
        view_numbered(new.block_stack@.last()@),
    ensures
        numbering_ok(new),
{
    let n = old.block_stack@.len() as int;
    assert forall|k: int| 0 <= k < new.block_stack@.len() implies reindexed(
        (#[trigger] new.block_stack@[k]).lines@,
        new.block_stack@[k].start_line.0 as int,
    ) == new.block_stack@[k].lines@ by {
        if k < n - 1 {
            assert(new.block_stack@[k] == new.block_stack@.drop_last()[k]);
            assert(old.block_stack@[k] == old.block_stack@.drop_last()[k]);
        }
    }
}

/// What `Delete:Block` leaves is numbered.
proof fn lemma_single_line_numbered(b: BlockView)
    requires
        b.lines.len() == 1,
        b.lines[0].line_num == b.start_line,
        b.lines[0].taps == 0,
        b.lines[0].diff_taps == 0,
    ensures
        view_numbered(b),
{
    assert(reindexed(b.lines, b.start_line.0 as int) =~= b.lines);
}

proof fn lemma_location_keeps_numbering(
    old: Engine,
    new: Engine,
    content: LocationContent,
    block: bool,
    range: Option<LineRange>,
)
    requires
        Engine::location_done(old, new, Ok(()), content, block, range),
        numbering_ok(old),
    ensures
        numbering_ok(new),
{
    let n = old.block_stack@.len() as int;
    let lines = old.scope_lines()->0;
    let nb = new.block_stack@.last();
    if n > 0 {
        assert(reindexed(old.block_stack@[n - 1].lines@, old.block_stack@[n - 1].start_line.0 as int) == lines);
        lemma_located_block_numbered(nb, lines, old.block_stack@[n - 1].start_line.0 as int, content, block, range);
    } else {
        lemma_located_block_numbered(nb, lines, 1, content, block, range);
    }
    assert forall|k: int| 0 <= k < new.block_stack@.len() implies reindexed(
        (#[trigger] new.block_stack@[k]).lines@,
        new.block_stack@[k].start_line.0 as int,
    ) == new.block_stack@[k].lines@ by {
        if k < n {
            assert(new.block_stack@[k] == new.block_stack@.drop_last()[k]);
        }
    }
}

proof fn lemma_new_keeps_numbering(old: Engine, new: Engine, position: crate::command::NewPosition, c: Seq<NewLine>)
    requires
        Engine::new_done(old, new, Ok(()), position, c),
        numbering_ok(old),
    ensures
        numbering_ok(new),
{
    let n = old.block_stack@.len() as int;
    if n > 0 {
        let b = old.block_stack@.last();
        let nb = new.block_stack@.last();
        let first = b.start_line.0 as int;
        let ip = crate::engine::insert_position(b@);
        let pos = match position {
            crate::command::NewPosition::Start => 0,
            crate::command::NewPosition::End => b.lines@.len() as int,
            crate::command::NewPosition::Normal => if ip < b.lines@.len() { ip } else { b.lines@.len() as int },
        };
        lemma_inserted_numbered(nb.lines@, b.lines@, pos, c, first);
        lemma_top_edit_numbered(old, new);
    } else if old.file is Some {
        let f = old.file->0.lines@;
        let pos = if position == crate::command::NewPosition::End { f.len() as int } else { 0 };
        lemma_inserted_numbered(new.file->0.lines@, f, pos, c, 1);
    }
}

proof fn lemma_delete_keeps_numbering(
    old: Engine,
    new: Engine,
    block: bool,
    content: Option<crate::model::DeleteContent>,
    range: Option<LineRange>,
)
    requires
        Engine::delete_done(old, new, Ok(()), block, content, range),
        numbering_ok(old),
    ensures
        numbering_ok(new),
{
    let b = old.block_stack@.last();
    let nb = new.block_stack@.last();
    if block {
        lemma_single_line_numbered(nb@);
        lemma_top_edit_numbered(old, new);
    } else {
        let len = b.lines@.len() as int;
        let se: (int, int) = match range {
            Some(rg) => crate::engine::delete_range(len, rg),
            None => {
                let st = crate::engine::delete_start(b.lines@, content->0.lines@)->0;
                (st, st + content->0.lines@.len() - 1)
            },
        };
        lemma_reindexed_idempotent(b.lines@.take(se.0) + b.lines@.skip(se.1 + 1), b.start_line.0 as int);
        lemma_top_edit_numbered(old, new);
    }
}

proof fn lemma_off_keeps_numbering(old: Engine, new: Engine, eff: Effect, target: OffTarget)
    requires
        Engine::off_done(old, new, Ok(eff), target),
        numbering_ok(old),
    ensures
        numbering_ok(new),
{
    let n = old.block_stack@.len() as int;
    let st = old.blocks();
    if target == OffTarget::Open {
        lemma_collapsed_numbered(st, old.file_lines());
        assert(new.block_stack@.len() == new.blocks().len());
    } else if n >= 2 {
        let parent = crate::engine::applied_to_parent(st[n - 2], st[n - 1]);
        let (so, cnt) = crate::engine::parent_span(st[n - 2], st[n - 1]);
        assert(st[n - 2] == old.block_stack@[n - 2]@);
        lemma_reindexed_idempotent(
            st[n - 2].lines.take(so) + st[n - 1].lines + st[n - 2].lines.skip(so + cnt),
            st[n - 2].start_line.0 as int,
        );
        assert(view_numbered(parent));
        assert(new.blocks() == st.take(n - 2).push(parent));
        assert forall|k: int| 0 <= k < new.block_stack@.len() implies reindexed(
            (#[trigger] new.block_stack@[k]).lines@,
            new.block_stack@[k].start_line.0 as int,
        ) == new.block_stack@[k].lines@ by {
            assert(new.blocks()[k] == new.block_stack@[k]@);
            if k < n - 2 {
                assert(st[k] == old.block_stack@[k]@);
            } else {
                assert(new.blocks()[k] == parent);
            }
        }
    } else {
        lemma_collapsed_numbered(st, old.file_lines());
        assert(new.block_stack@.len() == new.blocks().len());
        assert(collapsed(st, old.file_lines()) == collapsed(pop_merged(st, old.file_lines()).0, pop_merged(st, old.file_lines()).1));
        assert(pop_merged(st, old.file_lines()).0.len() == 0);
    }
}

/// Every command keeps the line numbers of the file and of each open
/// block consecutive.
pub proof fn law_commands_keep_numbering(old: Engine, new: Engine, res: Result<Effect, NEditError>, command: Command)
    requires
        Engine::command_done(old, new, res, command),
        numbering_ok(old),
    ensures
        numbering_ok(new),
{
    match res {
        Err(e) => {
            law_failed_command_changes_nothing(old, new, e, command);
        },
        Ok(eff) => match command {
            Command::Location { block, line_range, content } => {
                lemma_location_keeps_numbering(old, new, content, block, line_range);
            },
            Command::New { position, content } => {
                lemma_new_keeps_numbering(old, new, position, content.lines@);
            },
            Command::Delete { block, line_range, content } => {
                lemma_delete_keeps_numbering(old, new, block, content, line_range);
            },
            Command::Off { target } => {
                lemma_off_keeps_numbering(old, new, eff, target);
            },
            _ => {},
        },
    }
}

// ------------------------------------------------------------------
// Scripts
// ------------------------------------------------------------------

/// Neither a `...` separator nor a command line is ever part of a
/// command's content.
pub proof fn law_separators_and_commands_are_never_content(lines: Seq<Seq<char>>)
    ensures
        forall|k: int, j: int|
            0 <= k < lexed(lines).len() && 0 <= j < lexed(lines)[k].lines.len() ==> {
                &&& !is_separator_line(#[trigger] lexed(lines)[k].lines[j])
                &&& !is_command_line(lexed(lines)[k].lines[j])
            },
    decreases lines.len(),
{
    if lines.len() > 0 {
        law_separators_and_commands_are_never_content(lines.drop_last());
        let prev = lexed(lines.drop_last());
        let l = lines.last();
        if !is_command_line(l) && !is_separator_line(l) && prev.len() > 0 && prev.last().is_command {
            assert forall|k: int, j: int|
                0 <= k < lexed(lines).len() && 0 <= j < lexed(lines)[k].lines.len() implies {
                    &&& !is_separator_line(#[trigger] lexed(lines)[k].lines[j])
                    &&& !is_command_line(lexed(lines)[k].lines[j])
                } by {
                if k == prev.len() - 1 && j == prev.last().lines.len() {
                    assert(lexed(lines)[k].lines[j] == l);
                } else if k == prev.len() - 1 {
                    assert(lexed(lines)[k].lines[j] == prev[k].lines[j]);
                } else {
                    assert(lexed(lines)[k] == prev[k]);
                }
            }
        } else {
            assert forall|k: int, j: int|
                0 <= k < lexed(lines).len() && 0 <= j < lexed(lines)[k].lines.len() implies {
                    &&& !is_separator_line(#[trigger] lexed(lines)[k].lines[j])
                    &&& !is_command_line(lexed(lines)[k].lines[j])
                } by {
                if k < prev.len() {
                    assert(lexed(lines)[k] == prev[k]);
                }
            }
        }
    }
}

// ------------------------------------------------------------------
// Listings and reports
// ------------------------------------------------------------------

/// Listing the lines of `a` and then those of `b` gives, without color,
/// the listing of `a` followed by that of `b`.
pub proof fn law_plain_listing_of_concatenation(a: Seq<DiffLine>, b: Seq<DiffLine>)
    ensures
        plain_diff(a + b) == plain_diff(a) + plain_diff(b),
{
    let pa = Seq::new(a.len(), |i: int| plain_line(a[i]));
    let pb = Seq::new(b.len(), |i: int| plain_line(b[i]));
    assert(Seq::new((a + b).len(), |i: int| plain_line((a + b)[i])) =~= pa + pb);
    lemma_concat_append(pa, pb);
}

/// Each line is listed on its own: a listing of `a` followed by a listing
/// of `b` is a listing of `a + b`, and every listing of `a + b` is a
/// listing of `a` followed by one of `b`.
pub proof fn law_listing_of_concatenation(a: Seq<DiffLine>, b: Seq<DiffLine>, color: bool, x: Seq<char>, y: Seq<char>, out: Seq<char>)
    ensures
        diff_rendered(a, color, x) && diff_rendered(b, color, y) ==> diff_rendered(a + b, color, x + y),
        diff_rendered(a + b, color, out) ==> exists|u: Seq<char>, v: Seq<char>|
            #![trigger diff_rendered(a, color, u), diff_rendered(b, color, v)]
            out == u + v && diff_rendered(a, color, u) && diff_rendered(b, color, v),
{
    if diff_rendered(a, color, x) && diff_rendered(b, color, y) {
        let px = choose|pieces: Seq<Seq<char>>| #[trigger] concat(pieces) == x && pieces.len() == a.len()
            && forall|i: int| 0 <= i < a.len() ==> line_rendered(a[i], color, #[trigger] pieces[i]);
        let py = choose|pieces: Seq<Seq<char>>| #[trigger] concat(pieces) == y && pieces.len() == b.len()
            && forall|i: int| 0 <= i < b.len() ==> line_rendered(b[i], color, #[trigger] pieces[i]);
        lemma_concat_append(px, py);
        let p = px + py;
        assert forall|i: int| 0 <= i < (a + b).len() implies line_rendered((a + b)[i], color, #[trigger] p[i]) by {
            if i < a.len() {
                assert(p[i] == px[i]);
            } else {
                assert(p[i] == py[i - a.len()]);
            }
        }
        assert(concat(p) == x + y);
    }
    if diff_rendered(a + b, color, out) {
        let p = choose|pieces: Seq<Seq<char>>| #[trigger] concat(pieces) == out && pieces.len() == (a + b).len()
            && forall|i: int| 0 <= i < (a + b).len() ==> line_rendered((a + b)[i], color, #[trigger] pieces[i]);
        let pu = p.take(a.len() as int);
        let pv = p.skip(a.len() as int);
        assert(p =~= pu + pv);
        lemma_concat_append(pu, pv);
        assert forall|i: int| 0 <= i < a.len() implies line_rendered(a[i], color, #[trigger] pu[i]) by {
            assert(pu[i] == p[i]);
            assert((a + b)[i] == a[i]);
        }
        assert forall|i: int| 0 <= i < b.len() implies line_rendered(b[i], color, #[trigger] pv[i]) by {
            assert(pv[i] == p[a.len() + i]);
            assert((a + b)[a.len() + i] == b[i]);
        }
        assert(concat(pu) == concat(pu));
        assert(concat(pv) == concat(pv));
        assert(diff_rendered(a, color, concat(pu)));
        assert(diff_rendered(b, color, concat(pv)));
    }
}

/// Stripping `p` off the front of any text leaves `q` in its place.
pub open spec fn strips_to(p: Seq<char>, q: Seq<char>) -> bool {
    forall|y: Seq<char>| #[trigger] strip_ansi(p + y) == q + strip_ansi(y)
}

proof fn lemma_strips_plain(t: Seq<char>)
    requires
        lacks(t, '\x1B'),
    ensures
        strips_to(t, t),
    decreases t.len(),
{
    if t.len() > 0 {
        let r = t.drop_first();
        assert(lacks(r, '\x1B')) by {
            assert forall|i: int| 0 <= i < r.len() implies r[i] != '\x1B' by {
                assert(r[i] == t[i + 1]);
            }
        }
        lemma_strips_plain(r);
        assert forall|y: Seq<char>| #[trigger] strip_ansi(t + y) == t + strip_ansi(y) by {
            let s = t + y;
            assert(s[0] == t[0]);
            assert(s.drop_first() =~= r + y);
            assert(strip_ansi(r + y) == r + strip_ansi(y));
            assert(seq![t[0]] + (r + strip_ansi(y)) =~= t + strip_ansi(y));
        }
    } else {
        assert forall|y: Seq<char>| #[trigger] strip_ansi(t + y) == t + strip_ansi(y) by {
            assert(t + y =~= y);
            assert(t + strip_ansi(y) =~= strip_ansi(y));
        }
    }
}

proof fn lemma_skip_to_m(w: Seq<char>, y: Seq<char>)
    requires
        lacks(w, 'm'),
    ensures
        skip_sequence(w + seq!['m'] + y) == strip_ansi(y),
    decreases w.len(),
{
    let s = w + seq!['m'] + y;
    if w.len() == 0 {
        assert(s[0] == 'm');
        assert(s.drop_first() =~= y);
    } else {
        let r = w.drop_first();
        assert(lacks(r, 'm')) by {
            assert forall|i: int| 0 <= i < r.len() implies r[i] != 'm' by {
                assert(r[i] == w[i + 1]);
            }
        }
        assert(s[0] == w[0]);
        assert(s.drop_first() =~= r + seq!['m'] + y);
        lemma_skip_to_m(r, y);
    }
}

/// An ANSI sequence selecting `code` shows nothing.
proof fn lemma_strips_esc(code: Seq<char>)
    requires
        lacks(code, 'm'),
    ensures
        strips_to(esc(code), Seq::empty()),
{
    reveal_strlit("\x1B[");
    reveal_strlit("m");
    let w = seq!['['] + code;
    assert(lacks(w, 'm')) by {
        assert forall|i: int| 0 <= i < w.len() implies w[i] != 'm' by {
            if i > 0 {
                assert(w[i] == code[i - 1]);
            }
        }
    }
    assert forall|y: Seq<char>| #[trigger] strip_ansi(esc(code) + y) == Seq::<char>::empty() + strip_ansi(y) by {
        let s = esc(code) + y;
        assert(s =~= seq!['\x1B'] + (w + seq!['m'] + y));
        assert(s[0] == '\x1B');
        assert(s.drop_first() =~= w + seq!['m'] + y);
        lemma_skip_to_m(w, y);
        assert(Seq::<char>::empty() + strip_ansi(y) =~= strip_ansi(y));
    }
}

/// The reset sequence shows nothing.
proof fn lemma_strips_reset()
    ensures
        strips_to(reset_seq(), Seq::empty()),
{
    reveal_strlit("\x1B[0m");
    reveal_strlit("\x1B[");
    reveal_strlit("m");
    reveal_strlit("0");
    assert(reset_seq() =~= esc("0"@));
    lemma_strips_esc("0"@);
}

/// A text without escape characters holds no reset sequence to re-style.
proof fn lemma_reapply_plain(t: Seq<char>, ins: Seq<char>)
    requires
        lacks(t, '\x1B'),
    ensures
        reapply(t, ins) == t,
    decreases t.len(),
{
    reveal_strlit("\x1B[0m");
    if t.len() >= 4 {
        let r = t.drop_first();
        assert(lacks(r, '\x1B')) by {
            assert forall|i: int| 0 <= i < r.len() implies r[i] != '\x1B' by {
                assert(r[i] == t[i + 1]);
            }
        }
        assert(t.take(4)[0] == t[0]);
        assert(reset_seq()[0] == '\x1B');
        assert(t.take(4) != reset_seq());
        lemma_reapply_plain(r, ins);
        assert(seq![t[0]] + r =~= t);
    }
}

proof fn lemma_strips_join(a: Seq<char>, qa: Seq<char>, b: Seq<char>, qb: Seq<char>)
    requires
        strips_to(a, qa),
        strips_to(b, qb),
    ensures
        strips_to(a + b, qa + qb),
{
    assert forall|y: Seq<char>| #[trigger] strip_ansi((a + b) + y) == (qa + qb) + strip_ansi(y) by {
        assert((a + b) + y =~= a + (b + y));
        assert(strip_ansi(a + (b + y)) == qa + strip_ansi(b + y));
        assert(strip_ansi(b + y) == qb + strip_ansi(y));
        assert(qa + (qb + strip_ansi(y)) =~= (qa + qb) + strip_ansi(y));
    }
}

/// A piece that shows `t`, colored or not, strips to `t`.
proof fn lemma_strips_shown(p: Seq<char>, t: Seq<char>, code: Seq<char>, color: bool)
    requires
        shown(p, t, code, color),
        lacks(code, 'm'),
        lacks(t, '\x1B'),
    ensures
        strips_to(p, t),
{
    lemma_strips_plain(t);
    if color && p != t {
        assert(p == styled(code, t));
        lemma_reapply_plain(t, esc(code));
        lemma_strips_esc(code);
        lemma_strips_reset();
        lemma_strips_join(esc(code), Seq::empty(), t, t);
        lemma_strips_join(esc(code) + t, Seq::<char>::empty() + t, reset_seq(), Seq::empty());
        assert(Seq::<char>::empty() + t + Seq::<char>::empty() =~= t);
    }
}

proof fn lemma_decimal_plain(n: nat)
    ensures
        lacks(decimal(n), '\x1B'),
    decreases n,
{
    if n >= 10 {
        lemma_decimal_plain(n / 10);
        let d = decimal(n / 10);
        assert forall|i: int| 0 <= i < decimal(n).len() implies decimal(n)[i] != '\x1B' by {
            if i < d.len() {
                assert(decimal(n)[i] == d[i]);
            }
        }
    }
}

/// The style codes used have no `m`, and the fixed texts no escape.
proof fn lemma_fixed_texts()
    ensures
        lacks("32"@, 'm'),
        lacks("31"@, 'm'),
        lacks("2"@, 'm'),
        lacks("33"@, 'm'),
        lacks("37"@, 'm'),
        lacks("1;31"@, 'm'),
        lacks("1;32"@, 'm'),
        lacks("+"@, '\x1B'),
        lacks("-"@, '\x1B'),
        lacks(" "@, '\x1B'),
        lacks(" L"@, '\x1B'),
        lacks(": "@, '\x1B'),
        lacks("\n"@, '\x1B'),
        lacks("  "@, '\x1B'),
        lacks("  ~~~~~~~~"@, '\x1B'),
        lacks("Error:"@, '\x1B'),
        lacks("Hint:"@, '\x1B'),
{
    reveal_strlit("32");
    reveal_strlit("31");
    reveal_strlit("2");
    reveal_strlit("33");
    reveal_strlit("37");
    reveal_strlit("1;31");
    reveal_strlit("1;32");
    reveal_strlit("+");
    reveal_strlit("-");
    reveal_strlit(" ");
    reveal_strlit(" L");
    reveal_strlit(": ");
    reveal_strlit("\n");
    reveal_strlit("  ");
    reveal_strlit("  ~~~~~~~~");
    reveal_strlit("Error:");
    reveal_strlit("Hint:");
}

proof fn lemma_strips_marked(p: Seq<char>, mark: Seq<char>, n: Option<LineNumber>, c: Seq<char>, content: Seq<char>)
    requires
        strips_to(p, mark),
        strips_to(c, content),
    ensures
        strips_to(marked(p, n, c), marked(mark, n, content)),
{
    lemma_fixed_texts();
    lemma_strips_plain(" L"@);
    lemma_strips_plain(": "@);
    lemma_strips_plain("\n"@);
    lemma_strips_plain(" "@);
    match n {
        Some(x) => {
            let d = decimal(x.0 as nat);
            lemma_decimal_plain(x.0 as nat);
            lemma_strips_plain(d);
            lemma_strips_join(p, mark, " L"@, " L"@);
            lemma_strips_join(p + " L"@, mark + " L"@, d, d);
            lemma_strips_join(p + " L"@ + d, mark + " L"@ + d, ": "@, ": "@);
            lemma_strips_join(p + " L"@ + d + ": "@, mark + " L"@ + d + ": "@, c, content);
            lemma_strips_join(p + " L"@ + d + ": "@ + c, mark + " L"@ + d + ": "@ + content, "\n"@, "\n"@);
        },
        None => {
            lemma_strips_join(p, mark, " "@, " "@);
            lemma_strips_join(p + " "@, mark + " "@, c, content);
            lemma_strips_join(p + " "@ + c, mark + " "@ + content, "\n"@, "\n"@);
        },
    }
}

proof fn lemma_strips_line(l: DiffLine, color: bool, out: Seq<char>)
    requires
        line_rendered(l, color, out),
        lacks(l.content@, '\x1B'),
    ensures
        strips_to(out, plain_line(l)),
{
    lemma_fixed_texts();
    match l.kind {
        DiffLineKind::Added => {
            let (p, c): (Seq<char>, Seq<char>) = choose|p: Seq<char>, c: Seq<char>|
                shown(p, "+"@, "32"@, color) && shown(c, l.content@, "32"@, color)
                    && out == marked(p, l.line_number, c);
            lemma_strips_shown(p, "+"@, "32"@, color);
            lemma_strips_shown(c, l.content@, "32"@, color);
            lemma_strips_marked(p, "+"@, l.line_number, c, l.content@);
        },
        DiffLineKind::Deleted => {
            let (p, c): (Seq<char>, Seq<char>) = choose|p: Seq<char>, c: Seq<char>|
                shown(p, "-"@, "31"@, color) && shown(c, l.content@, "31"@, color)
                    && out == marked(p, l.line_number, c);
            lemma_strips_shown(p, "-"@, "31"@, color);
            lemma_strips_shown(c, l.content@, "31"@, color);
            lemma_strips_marked(p, "-"@, l.line_number, c, l.content@);
        },
        DiffLineKind::Unchanged => {
            let c = choose|c: Seq<char>| shown(c, l.content@, "2"@, color) && out == marked(" "@, l.line_number, c);
            lemma_strips_plain(" "@);
            lemma_strips_shown(c, l.content@, "2"@, color);
            lemma_strips_marked(" "@, " "@, l.line_number, c, l.content@);
        },
        DiffLineKind::Separator => {
            let sp = choose|sp: Seq<char>| shown(sp, "  ~~~~~~~~"@, "2"@, color) && out == sp + "\n"@;
            lemma_strips_shown(sp, "  ~~~~~~~~"@, "2"@, color);
            lemma_strips_plain("\n"@);
            lemma_strips_join(sp, "  ~~~~~~~~"@, "\n"@, "\n"@);
            reveal_strlit("  ~~~~~~~~");
            reveal_strlit("\n");
            reveal_strlit("  ~~~~~~~~\n");
            assert("  ~~~~~~~~"@ + "\n"@ =~= "  ~~~~~~~~\n"@);
        },
    }
}

proof fn lemma_strips_concat(ps: Seq<Seq<char>>, qs: Seq<Seq<char>>)
    requires
        ps.len() == qs.len(),
        forall|i: int| 0 <= i < ps.len() ==> strips_to(#[trigger] ps[i], qs[i]),
    ensures
        strips_to(concat(ps), concat(qs)),
    decreases ps.len(),
{
    if ps.len() == 0 {
        lemma_strips_plain(Seq::<char>::empty());
    } else {
        let n = ps.len() - 1;
        assert forall|i: int| 0 <= i < ps.drop_last().len() implies strips_to(#[trigger] ps.drop_last()[i], qs.drop_last()[i]) by {
            assert(strips_to(ps[i], qs[i]));
        }
        lemma_strips_concat(ps.drop_last(), qs.drop_last());
        assert(strips_to(ps[n], qs[n]));
        lemma_strips_join(concat(ps.drop_last()), concat(qs.drop_last()), ps.last(), qs.last());
    }
}

proof fn lemma_stripped_whole(p: Seq<char>, q: Seq<char>)
    requires
        strips_to(p, q),
    ensures
        strip_ansi(p) == q,
{
    let e = Seq::<char>::empty();
    assert(strip_ansi(p + e) == q + strip_ansi(e));
    assert(p + e =~= p);
    assert(q + e =~= q);
}

/// Color only decorates a listing: what a terminal shows of a colored
/// listing, its ANSI sequences taken out, is the uncolored listing (for
/// lines whose text holds no escape character).
pub proof fn law_color_only_decorates_listing(lines: Seq<DiffLine>, color: bool, out: Seq<char>)
    requires
        diff_rendered(lines, color, out),
        forall|i: int| 0 <= i < lines.len() ==> lacks(#[trigger] lines[i].content@, '\x1B'),
    ensures
        strip_ansi(out) == plain_diff(lines),
{
    let pieces = choose|pieces: Seq<Seq<char>>| #[trigger] concat(pieces) == out && pieces.len() == lines.len()
        && forall|i: int| 0 <= i < lines.len() ==> line_rendered(lines[i], color, #[trigger] pieces[i]);
    let qs = Seq::new(lines.len(), |i: int| plain_line(lines[i]));
    assert forall|i: int| 0 <= i < pieces.len() implies strips_to(#[trigger] pieces[i], qs[i]) by {
        lemma_strips_line(lines[i], color, pieces[i]);
    }
    lemma_strips_concat(pieces, qs);
    lemma_stripped_whole(out, plain_diff(lines));
}

proof fn lemma_segments_lack(s: Seq<char>, c: char)
    requires
        lacks(s, c),
    ensures
        forall|i: int| 0 <= i < segments(s).len() ==> lacks(#[trigger] segments(s)[i], c),
    decreases s.len(),
{
    if s.len() > 0 {
        let t = s.drop_last();
        assert(lacks(t, c)) by {
            assert forall|i: int| 0 <= i < t.len() implies t[i] != c by {
                assert(t[i] == s[i]);
            }
        }
        lemma_segments_lack(t, c);
        lemma_segments_join(t);
        let r = segments(t);
        if s.last() != '\n' {
            assert(segments(s) == r.update(r.len() - 1, r.last().push(s.last())));
            assert forall|i: int| 0 <= i < segments(s).len() implies lacks(#[trigger] segments(s)[i], c) by {
                if i == r.len() - 1 {
                    let x = r[i].push(s.last());
                    assert(lacks(r[i], c));
                    assert(s[s.len() - 1] != c);
                    assert forall|j: int| 0 <= j < x.len() implies x[j] != c by {
                        if j < r[i].len() {
                            assert(x[j] == r[i][j]);
                        }
                    }
                    assert(segments(s)[i] == x);
                }
            }
        } else {
            assert(segments(s) == r.push(Seq::<char>::empty()));
            assert forall|i: int| 0 <= i < segments(s).len() implies lacks(#[trigger] segments(s)[i], c) by {
                if i < r.len() {
                    assert(segments(s)[i] == r[i]);
                }
            }
        }
    }
}

proof fn lemma_lines_lack(s: Seq<char>, c: char)
    requires
        lacks(s, c),
    ensures
        forall|i: int| 0 <= i < text_lines(s).len() ==> lacks(#[trigger] text_lines(s)[i], c),
{
    lemma_segments_lack(s, c);
    lemma_segments_join(s);
    let segs = segments(s);
    let ended = segs.drop_last();
    assert forall|i: int| 0 <= i < text_lines(s).len() implies lacks(#[trigger] text_lines(s)[i], c) by {
        if i < ended.len() {
            assert(lacks(segs[i], c));
            let d = drop_cr(ended[i]);
            assert(text_lines(s)[i] == d);
            assert forall|j: int| 0 <= j < d.len() implies d[j] != c by {
                assert(d[j] == segs[i][j]);
            }
        } else {
            assert(text_lines(s)[i] == segs.last());
            assert(lacks(segs[segs.len() - 1], c));
        }
    }
}

/// Color only decorates an error report: what a terminal shows of it, its
/// ANSI sequences taken out, is the uncolored report (for a title, detail
/// and hints that hold no escape character).
pub proof fn law_color_only_decorates_report(out: Seq<char>, title: Seq<char>, detail: Seq<char>, hints: Seq<Seq<char>>, color: bool)
    requires
        error_rendered(out, title, detail, hints, color),
        lacks(title, '\x1B'),
        lacks(detail, '\x1B'),
        forall|j: int| 0 <= j < hints.len() ==> lacks(#[trigger] hints[j], '\x1B'),
    ensures
        strip_ansi(out) == plain_error(title, detail, hints),
{
    lemma_fixed_texts();
    lemma_lines_lack(detail, '\x1B');
    lemma_strips_plain(" "@);
    lemma_strips_plain("  "@);
    lemma_strips_plain("\n"@);
    let dl = text_lines(detail);
    let parts = choose|parts: Seq<Seq<char>>| #[trigger] concat(parts) == out && parts.len() == 1 + dl.len() + hints.len()
        && header_rendered(parts[0], title, color)
        && (forall|i: int| 0 <= i < dl.len() ==> detail_rendered(#[trigger] parts[1 + i], dl[i], color))
        && (forall|j: int| 0 <= j < hints.len() ==> hint_rendered(#[trigger] parts[1 + dl.len() + j], hints[j], color));
    let head = "Error: "@ + title + "\n"@;
    let ds = Seq::new(dl.len(), |i: int| "  "@ + dl[i] + "\n"@);
    let hs = Seq::new(hints.len(), |j: int| "  Hint: "@ + hints[j] + "\n"@);
    let qs = seq![head] + ds + hs;
    reveal_strlit("Error:");
    reveal_strlit(" ");
    reveal_strlit("Error: ");
    reveal_strlit("  ");
    reveal_strlit("Hint:");
    reveal_strlit("  Hint: ");
    assert(strips_to(parts[0], qs[0])) by {
        let (e, t): (Seq<char>, Seq<char>) = choose|e: Seq<char>, t: Seq<char>|
            shown(e, "Error:"@, "1;31"@, color) && shown(t, title, "33"@, color) && parts[0] == e + " "@ + t + "\n"@;
        lemma_strips_shown(e, "Error:"@, "1;31"@, color);
        lemma_strips_shown(t, title, "33"@, color);
        lemma_strips_join(e, "Error:"@, " "@, " "@);
        lemma_strips_join(e + " "@, "Error:"@ + " "@, t, title);
        lemma_strips_join(e + " "@ + t, "Error:"@ + " "@ + title, "\n"@, "\n"@);
        assert("Error:"@ + " "@ =~= "Error: "@);
        assert(qs[0] == head);
    }
    assert forall|i: int| 1 <= i < 1 + dl.len() implies strips_to(#[trigger] parts[i], qs[i]) by {
        let i0 = i - 1;
        assert(detail_rendered(parts[1 + i0], dl[i0], color));
        let d = choose|d: Seq<char>| shown(d, dl[i0], "2"@, color) && parts[i] == "  "@ + d + "\n"@;
        assert(lacks(dl[i0], '\x1B'));
        lemma_strips_shown(d, dl[i0], "2"@, color);
        lemma_strips_join("  "@, "  "@, d, dl[i0]);
        lemma_strips_join("  "@ + d, "  "@ + dl[i0], "\n"@, "\n"@);
        assert(qs[i] == ds[i0]);
    }
    assert forall|i: int| 1 + dl.len() <= i < parts.len() implies strips_to(#[trigger] parts[i], qs[i]) by {
        let j = i - 1 - dl.len();
        assert(hint_rendered(parts[1 + dl.len() + j], hints[j], color));
        let (k, h): (Seq<char>, Seq<char>) = choose|k: Seq<char>, h: Seq<char>|
            shown(k, "Hint:"@, "1;32"@, color) && shown(h, hints[j], "37"@, color)
                && parts[i] == "  "@ + k + " "@ + h + "\n"@;
        lemma_strips_shown(k, "Hint:"@, "1;32"@, color);
        lemma_strips_shown(h, hints[j], "37"@, color);
        lemma_strips_join("  "@, "  "@, k, "Hint:"@);
        lemma_strips_join("  "@ + k, "  "@ + "Hint:"@, " "@, " "@);
        lemma_strips_join("  "@ + k + " "@, "  "@ + "Hint:"@ + " "@, h, hints[j]);
        lemma_strips_join("  "@ + k + " "@ + h, "  "@ + "Hint:"@ + " "@ + hints[j], "\n"@, "\n"@);
        assert("  "@ + "Hint:"@ + " "@ =~= "  Hint: "@);
        assert(qs[i] == hs[j]);
    }
    assert forall|i: int| 0 <= i < parts.len() implies strips_to(#[trigger] parts[i], qs[i]) by {
        if i == 0 {
        } else if i < 1 + dl.len() {
        } else {
        }
    }
    lemma_strips_concat(parts, qs);
    lemma_concat_append(seq![head] + ds, hs);
    lemma_concat_append(seq![head], ds);
    lemma_concat_single(head);
    assert(concat(qs) == plain_error(title, detail, hints));
    lemma_stripped_whole(out, plain_error(title, detail, hints));
}

// ------------------------------------------------------------------
// Ending a run
// ------------------------------------------------------------------

proof fn lemma_collapsed_keeps_file(stack: Seq<BlockView>, f: Seq<Line>)
    ensures
        collapsed(stack, Some(f)) is Some,
    decreases stack.len(),
{
    if stack.len() > 0 {
        let next = pop_merged(stack, Some(f));
        assert(next.1 is Some);
        lemma_collapsed_keeps_file(next.0, next.1->0);
    }
}

/// Closing the file, as every run ends (the implicit `Off:Open`, or an
/// explicit one), leaves no block open, merges every block's edits into
/// the file lines, and hands those lines out to be written to the opened
/// path.
pub proof fn law_closing_leaves_no_block_open(old: Engine, new: Engine, eff: Effect)
    requires
        Engine::flushed(old, new, eff),
        old.file is Some,
        old.file_path is Some,
    ensures
        new.block_stack@.len() == 0,
        new.file matches Some(f) && Some(f.lines@) == collapsed(old.blocks(), old.file_lines()),
        eff matches Effect::WriteFile { path, text } && Some(path) == old.file_path
            && (new.file matches Some(f) && text@ == written(f.lines@)),
{
    lemma_collapsed_keeps_file(old.blocks(), old.file->0.lines@);
}

// ------------------------------------------------------------------
// A run that only reads
// ------------------------------------------------------------------

/// A command that edits nothing: a `Location`, a `Raw`, or an `Off`.
pub open spec fn reads_only(c: Command) -> bool {
    c is Location || c is Raw || c is Off
}

/// A block is numbered from its first line.
#[verifier::opaque]
spec fn block_numbered(b: BlockView) -> bool {
    numbered_from(b.lines, b.start_line.0 as int)
}

/// Putting `child` back unchanged into a non-empty `parent` leaves it as
/// it was.
#[verifier::opaque]
spec fn fits_back(parent: BlockView, child: BlockView) -> bool {
    parent.lines.len() > 0 ==> applied_to_parent(parent, child) == parent
}

/// Putting `b` back unchanged into the file lines `f` leaves them as they
/// were.
#[verifier::opaque]
spec fn fits_file(f: Seq<Line>, b: BlockView) -> bool {
    applied_to_file(f, b) == f
}

/// Every block is numbered from its first line, and put back unchanged
/// into the one it was cut from (the first one into the file `f`) leaves
/// that one as it was.
spec fn faithful(st: Seq<BlockView>, f: Seq<Line>) -> bool {
    &&& numbered_from(f, 1)
    &&& forall|k: int| 0 <= k < st.len() ==> block_numbered(#[trigger] st[k])
    &&& st.len() > 0 ==> fits_file(f, st[0])
    &&& forall|k: int| 1 <= k < st.len() ==> fits_back(st[k - 1], #[trigger] st[k])
}

/// The state of a run that has only read the file `f` opened at `p`.
spec fn reading(e: Engine, f: Seq<Line>, p: Option<String>) -> bool {
    &&& e.file matches Some(ff) && ff.lines@ == f
    &&& e.file_path == p
    &&& faithful(e.blocks(), f)
}

proof fn lemma_cut_numbered(lines: Seq<Line>, first: int, b: ContentBlock, s: int, e: int, m: int)
    requires
        numbered_from(lines, first),
        is_cut(b, lines, s, e, m),
    ensures
        numbered_from(b.lines@, b.start_line.0 as int),
{
    assert(lines[s] == reindexed(lines, first)[s]);
    assert(b.start_line.0 == first + s);
    lemma_reindexed_idempotent(lines.subrange(s, e + 1), first + s);
}

proof fn lemma_whole_numbered(lines: Seq<Line>, first: int, b: ContentBlock)
    requires
        numbered_from(lines, first),
        is_whole_scope(b, lines),
    ensures
        numbered_from(b.lines@, b.start_line.0 as int),
{
    if lines.len() > 0 {
        assert(lines[0] == reindexed(lines, first)[0]);
    } else {
        assert(reindexed(b.lines@, 1) =~= b.lines@);
    }
}

/// A faithful stack that can be merged down gives the file back.
proof fn lemma_faithful_collapses(st: Seq<BlockView>, f: Seq<Line>)
    requires
        faithful(st, f),
        collapsible(st, Some(f)),
    ensures
        collapsed(st, Some(f)) == Some(f),
    decreases st.len(),
{
    let n = st.len() as int;
    if n >= 2 {
        let top = st[n - 1];
        let parent = st[n - 2];
        assert(parent.lines.len() > 0);
        assert(fits_back(parent, top));
        assert(applied_to_parent(parent, top) == parent) by {
            reveal(fits_back);
        }
        let d = st.drop_last();
        assert(d =~= st.take(n - 2).push(parent));
        assert(pop_merged(st, Some(f)).0 == st.take(n - 2).push(applied_to_parent(parent, top)));
        assert(pop_merged(st, Some(f)).1 == Some(f));
        assert forall|k: int| 0 <= k < d.len() implies block_numbered(#[trigger] d[k]) by {
            assert(d[k] == st[k]);
        }
        assert forall|k: int| 1 <= k < d.len() implies fits_back(d[k - 1], #[trigger] d[k]) by {
            assert(d[k] == st[k]);
            assert(d[k - 1] == st[k - 1]);
        }
        assert forall|k: int| 0 <= k < d.len() - 1 implies (#[trigger] d[k]).lines.len() > 0 by {
            assert(d[k] == st[k]);
        }
        assert(d[0] == st[0]);
        lemma_faithful_collapses(d, f);
        assert(pop_merged(st, Some(f)).0 == d);
        assert(collapsed(st, Some(f)) == collapsed(d, Some(f)));
    } else if n == 1 {
        assert(fits_file(f, st[0]));
        assert(applied_to_file(f, st[0]) == f) by {
            reveal(fits_file);
        }
        assert(pop_merged(st, Some(f)).0 =~= Seq::<BlockView>::empty());
        assert(pop_merged(st, Some(f)).1 == Some(f));
        assert(collapsed(st, Some(f)) == collapsed(Seq::<BlockView>::empty(), Some(f)));
    }
}

/// A successful `Location` in a reading run keeps it reading.
proof fn lemma_reading_location(
    old: Engine,
    new: Engine,
    content: LocationContent,
    block: bool,
    range: Option<LineRange>,
    f: Seq<Line>,
    p: Option<String>,
)
    requires
        reading(old, f, p),
        Engine::location_done(old, new, Ok(()), content, block, range),
    ensures
        reading(new, f, p),
{
    let st = old.blocks();
    let n = st.len() as int;
    let lines = old.scope_lines()->0;
    let b = new.block_stack@.last();
    assert(new.block_stack@.drop_last() == old.block_stack@);
    let nst = new.blocks();
    assert(nst =~= st.push(b@)) by {
        assert forall|i: int| 0 <= i < n implies nst[i] == st[i] by {
            assert(new.block_stack@[i] == new.block_stack@.drop_last()[i]);
        }
    }
    let r = lemma_location_is_cut(b, lines, content, block, range);
    let first: int = if n == 0 { 1 } else { st[n - 1].start_line.0 as int };
    if n == 0 {
        assert(lines == f);
    } else {
        assert(lines == st[n - 1].lines);
        assert(block_numbered(st[n - 1]));
        reveal(block_numbered);
    }
    assert(numbered_from(lines, first));
    assert(block_numbered(b@)) by {
        reveal(block_numbered);
        if is_whole_scope(b, lines) {
            lemma_whole_numbered(lines, first, b);
        } else {
            lemma_cut_numbered(lines, first, b, r.0, r.1, r.2);
        }
    }
    if n == 0 {
        assert(fits_file(f, b@)) by {
            reveal(fits_file);
            if is_whole_scope(b, lines) {
                law_whole_scope_put_back_keeps_file(f, b);
            } else {
                law_cut_block_put_back_keeps_file(f, b, r.0, r.1, r.2);
            }
        }
        assert(nst[0] == b@);
    } else {
        let outer = st[n - 1];
        assert(fits_back(outer, b@)) by {
            reveal(fits_back);
            if lines.len() > 0 {
                if is_whole_scope(b, lines) {
                    let k = lines.len() - 1;
                    assert(lines.subrange(0, k + 1) =~= lines);
                    assert(lines[0].line_num == reindexed(lines, outer.start_line.0 as int)[0].line_num);
                    law_cut_block_put_back_keeps_parent(outer, b, 0, k, 0);
                } else {
                    law_cut_block_put_back_keeps_parent(outer, b, r.0, r.1, r.2);
                }
            }
        }
        assert(nst[n] == b@);
        assert(nst[n - 1] == outer);
        assert(nst[0] == st[0]);
    }
    assert forall|k: int| 0 <= k < nst.len() implies block_numbered(#[trigger] nst[k]) by {
        if k < n {
            assert(nst[k] == st[k]);
        }
    }
    assert forall|k: int| 1 <= k < nst.len() implies fits_back(nst[k - 1], #[trigger] nst[k]) by {
        if k < n {
            assert(nst[k] == st[k]);
            assert(nst[k - 1] == st[k - 1]);
        }
    }
}

/// Closing the innermost block of a reading run keeps it reading.
proof fn lemma_reading_off_scope(
    old: Engine,
    new: Engine,
    res: Result<Effect, NEditError>,
    f: Seq<Line>,
    p: Option<String>,
)
    requires
        reading(old, f, p),
        pop_safe(old.blocks(), old.file_lines()),
        res is Ok,
        Engine::off_scope_done(old, new, res),
    ensures
        reading(new, f, p),
{
    let st = old.blocks();
    let n = st.len() as int;
    assert(n > 0);
    let pm = pop_merged(st, old.file_lines());
    if n >= 2 {
        let top = st[n - 1];
        let parent = st[n - 2];
        assert(parent.lines.len() > 0);
        assert(fits_back(parent, top));
        assert(applied_to_parent(parent, top) == parent) by {
            reveal(fits_back);
        }
        let d = st.drop_last();
        assert(d =~= st.take(n - 2).push(parent));
        assert(pm.0 == st.take(n - 2).push(applied_to_parent(parent, top)));
        assert(new.blocks() == d);
        assert forall|k: int| 0 <= k < d.len() implies block_numbered(#[trigger] d[k]) by {
            assert(d[k] == st[k]);
        }
        assert forall|k: int| 1 <= k < d.len() implies fits_back(d[k - 1], #[trigger] d[k]) by {
            assert(d[k] == st[k]);
            assert(d[k - 1] == st[k - 1]);
        }
        assert(d[0] == st[0]);
    } else {
        assert(fits_file(f, st[0]));
        assert(applied_to_file(f, st[0]) == f) by {
            reveal(fits_file);
        }
        assert(pm.1 == Some(f));
        assert(new.file_lines() == Some(f));
        assert(new.blocks() == pm.0);
        assert(new.blocks().len() == 0);
    }
}

/// `Off:Open` in a reading run keeps it reading and hands out the file's
/// own lines.
proof fn lemma_reading_off_open(old: Engine, new: Engine, eff: Effect, f: Seq<Line>, p: Option<String>)
    requires
        reading(old, f, p),
        collapsible(old.blocks(), old.file_lines()),
        Engine::flushed(old, new, eff),
    ensures
        reading(new, f, p),
        eff matches Effect::WriteFile { text, .. } ==> text@ == written(f),
{
    lemma_faithful_collapses(old.blocks(), f);
    assert(new.file_lines() == Some(f));
    assert(new.blocks() =~= Seq::<BlockView>::empty());
}

/// One successful command of a reading run keeps it reading; an `Off:Open`
/// among them hands out the file's own lines.
proof fn lemma_reading_step(
    old: Engine,
    new: Engine,
    res: Result<Effect, NEditError>,
    c: Command,
    f: Seq<Line>,
    p: Option<String>,
)
    requires
        reading(old, f, p),
        reads_only(c),
        old.command_safe(c),
        res is Ok,
        Engine::command_done(old, new, res, c),
    ensures
        reading(new, f, p),
        res matches Ok(Effect::WriteFile { text, .. }) ==> text@ == written(f),
{
    match c {
        Command::Location { block, line_range, content } => {
            lemma_reading_location(old, new, content, block, line_range, f, p);
        },
        Command::Off { target } => {
            if target == OffTarget::Open {
                lemma_reading_off_open(old, new, res->Ok_0, f, p);
            } else {
                lemma_reading_off_scope(old, new, res, f, p);
            }
        },
        _ => {},
    }
}

proof fn lemma_reading_run(
    runs: Seq<Engine>,
    cs: Seq<Command>,
    rs: Seq<Result<Effect, NEditError>>,
    f: Seq<Line>,
    p: Option<String>,
    k: int,
)
    requires
        runs.len() == cs.len() + 1,
        rs.len() == cs.len(),
        0 <= k <= cs.len(),
        reading(runs[0], f, p),
        forall|i: int|
            #![trigger cs[i]]
            0 <= i < cs.len() ==> reads_only(cs[i]) && runs[i].command_safe(cs[i]) && rs[i] is Ok
                && Engine::command_done(runs[i], runs[i + 1], rs[i], cs[i]),
    ensures
        reading(runs[k], f, p),
        forall|i: int| 0 <= i < k ==> (#[trigger] rs[i] matches Ok(Effect::WriteFile { text, .. }) ==> text@ == written(f)),
    decreases k,
{
    if k > 0 {
        lemma_reading_run(runs, cs, rs, f, p, k - 1);
        let i = k - 1;
        assert(reads_only(cs[i]));
        lemma_reading_step(runs[i], runs[i + 1], rs[i], cs[i], f, p);
    }
}

/// A run that only reads (`Location`s, `Raw`s and `Off`s, each run where
/// it can complete and each succeeding), closed at its end, writes back
/// exactly the text that was opened, to the path it was opened from; so
/// does every `Off:Open` on the way. (For a text without carriage returns
/// that is empty or ends with a line feed.)
pub proof fn law_reading_run_writes_back_what_it_read(
    runs: Seq<Engine>,
    cs: Seq<Command>,
    rs: Seq<Result<Effect, NEditError>>,
    closed: Engine,
    eff: Effect,
    text: Seq<char>,
)
    requires
        runs.len() == cs.len() + 1,
        rs.len() == cs.len(),
        runs[0].file matches Some(f) && contents(f.lines@) == text_lines(text) && fresh_lines(f.lines@),
        runs[0].file_path is Some,
        runs[0].block_stack@.len() == 0,
        forall|i: int|
            #![trigger cs[i]]
            0 <= i < cs.len() ==> reads_only(cs[i]) && runs[i].command_safe(cs[i]) && rs[i] is Ok
                && Engine::command_done(runs[i], runs[i + 1], rs[i], cs[i]),
        collapsible(runs.last().blocks(), runs.last().file_lines()),
        Engine::flushed(runs.last(), closed, eff),
        no_cr(text),
        text.len() == 0 || text.last() == '\n',
    ensures
        eff matches Effect::WriteFile { path, text: t } && Some(path) == runs[0].file_path && t@ == text,
        forall|i: int| 0 <= i < cs.len() ==> (#[trigger] rs[i] matches Ok(Effect::WriteFile { text: t, .. }) ==> t@ == text),
{
    let f0 = runs[0].file->0;
    let f = f0.lines@;
    let p = runs[0].file_path;
    assert(f0.lines.len() == f.len());
    law_read_lines_are_numbered(f);
    assert(numbered_from(f, 1));
    assert(runs[0].blocks() =~= Seq::<BlockView>::empty());
    lemma_reading_run(runs, cs, rs, f, p, cs.len() as int);
    let last = runs[cs.len() as int];
    assert(last == runs.last());
    lemma_faithful_collapses(last.blocks(), f);
    law_read_then_write_gives_text(text);
    assert(written(f) == text);
}

// ------------------------------------------------------------------
// What a report shows
// ------------------------------------------------------------------

/// `w` occurs in `s`.
pub open spec fn occurs_in(w: Seq<char>, s: Seq<char>) -> bool {
    exists|i: int| 0 <= i && i + w.len() <= s.len() && #[trigger] s.subrange(i, i + w.len()) == w
}

proof fn lemma_occurs_at(w: Seq<char>, s: Seq<char>, i: int)
    requires
        0 <= i,
        i + w.len() <= s.len(),
        s.subrange(i, i + w.len()) == w,
    ensures
        occurs_in(w, s),
{
}

proof fn lemma_occurs_in_join(w: Seq<char>, a: Seq<char>, b: Seq<char>)
    requires
        occurs_in(w, a) || occurs_in(w, b),
    ensures
        occurs_in(w, a + b),
{
    if occurs_in(w, a) {
        let i = choose|i: int| 0 <= i && i + w.len() <= a.len() && #[trigger] a.subrange(i, i + w.len()) == w;
        assert((a + b).subrange(i, i + w.len()) =~= a.subrange(i, i + w.len()));
        lemma_occurs_at(w, a + b, i);
    } else {
        let i = choose|i: int| 0 <= i && i + w.len() <= b.len() && #[trigger] b.subrange(i, i + w.len()) == w;
        assert((a + b).subrange(a.len() + i, a.len() + i + w.len()) =~= b.subrange(i, i + w.len()));
        lemma_occurs_at(w, a + b, a.len() + i);
    }
}

proof fn lemma_occurs_in_concat(w: Seq<char>, ps: Seq<Seq<char>>, k: int)
    requires
        0 <= k < ps.len(),
        occurs_in(w, ps[k]),
    ensures
        occurs_in(w, concat(ps)),
    decreases ps.len(),
{
    if k == ps.len() - 1 {
        lemma_occurs_in_join(w, concat(ps.drop_last()), ps.last());
    } else {
        assert(ps.drop_last()[k] == ps[k]);
        lemma_occurs_in_concat(w, ps.drop_last(), k);
        lemma_occurs_in_join(w, concat(ps.drop_last()), ps.last());
    }
}

/// A piece that shows `t`, colored or not, holds `t`.
proof fn lemma_shown_holds(p: Seq<char>, t: Seq<char>, code: Seq<char>, color: bool)
    requires
        shown(p, t, code, color),
        lacks(t, '\x1B'),
    ensures
        occurs_in(t, p),
{
    if p == t {
        assert(p.subrange(0, t.len() as int) =~= t);
        lemma_occurs_at(t, p, 0);
    } else {
        lemma_reapply_plain(t, esc(code));
        assert(p == esc(code) + t + reset_seq());
        let i = esc(code).len() as int;
        assert(p.subrange(i, i + t.len()) =~= t);
        lemma_occurs_at(t, p, i);
    }
}

/// An error report, colored or not, shows the word `Error:` and the
/// title, and, when there are hints, the word `Hint:` and each hint (for
/// a title and hints that hold no escape character).
pub proof fn law_report_shows_error_and_hints(
    out: Seq<char>,
    title: Seq<char>,
    detail: Seq<char>,
    hints: Seq<Seq<char>>,
    color: bool,
)
    requires
        error_rendered(out, title, detail, hints, color),
        lacks(title, '\x1B'),
        forall|j: int| 0 <= j < hints.len() ==> lacks(#[trigger] hints[j], '\x1B'),
    ensures
        occurs_in("Error:"@, out),
        occurs_in(title, out),
        hints.len() > 0 ==> occurs_in("Hint:"@, out),
        forall|j: int| 0 <= j < hints.len() ==> occurs_in(#[trigger] hints[j], out),
{
    lemma_fixed_texts();
    let dl = text_lines(detail);
    let parts = choose|parts: Seq<Seq<char>>| #[trigger] concat(parts) == out && parts.len() == 1 + dl.len() + hints.len()
        && header_rendered(parts[0], title, color)
        && (forall|i: int| 0 <= i < dl.len() ==> detail_rendered(#[trigger] parts[1 + i], dl[i], color))
        && (forall|j: int| 0 <= j < hints.len() ==> hint_rendered(#[trigger] parts[1 + dl.len() + j], hints[j], color));
    let (e, t): (Seq<char>, Seq<char>) = choose|e: Seq<char>, t: Seq<char>|
        shown(e, "Error:"@, "1;31"@, color) && shown(t, title, "33"@, color) && parts[0] == e + " "@ + t + "\n"@;
    lemma_shown_holds(e, "Error:"@, "1;31"@, color);
    lemma_shown_holds(t, title, "33"@, color);
    lemma_occurs_in_join("Error:"@, e, " "@);
    lemma_occurs_in_join("Error:"@, e + " "@, t);
    lemma_occurs_in_join("Error:"@, e + " "@ + t, "\n"@);
    lemma_occurs_in_join(title, e + " "@, t);
    lemma_occurs_in_join(title, e + " "@ + t, "\n"@);
    lemma_occurs_in_concat("Error:"@, parts, 0);
    lemma_occurs_in_concat(title, parts, 0);
    assert forall|j: int| 0 <= j < hints.len() implies occurs_in(#[trigger] hints[j], out) && occurs_in("Hint:"@, out) by {
        let idx = 1 + dl.len() + j;
        assert(hint_rendered(parts[idx], hints[j], color));
        let (k, h): (Seq<char>, Seq<char>) = choose|k: Seq<char>, h: Seq<char>|
            shown(k, "Hint:"@, "1;32"@, color) && shown(h, hints[j], "37"@, color)
                && parts[idx] == "  "@ + k + " "@ + h + "\n"@;
        lemma_shown_holds(k, "Hint:"@, "1;32"@, color);
        lemma_shown_holds(h, hints[j], "37"@, color);
        lemma_occurs_in_join("Hint:"@, "  "@, k);
        lemma_occurs_in_join("Hint:"@, "  "@ + k, " "@);
        lemma_occurs_in_join("Hint:"@, "  "@ + k + " "@, h);
        lemma_occurs_in_join("Hint:"@, "  "@ + k + " "@ + h, "\n"@);
        lemma_occurs_in_join(hints[j], "  "@ + k + " "@, h);
        lemma_occurs_in_join(hints[j], "  "@ + k + " "@ + h, "\n"@);
        lemma_occurs_in_concat("Hint:"@, parts, idx);
        lemma_occurs_in_concat(hints[j], parts, idx);
    }
    if hints.len() > 0 {
        assert(occurs_in(hints[0], out));
    }
}

// ------------------------------------------------------------------
// A whole run
// ------------------------------------------------------------------

/// What handing the text read for an `Open` to `Engine::open_text` did.
pub open spec fn opened(old: Engine, new: Engine, path: Seq<char>, text: Seq<char>) -> bool {
    &&& new.file_path matches Some(p) && p@ == path
    &&& new.file matches Some(f) && contents(f.lines@) == text_lines(text) && fresh_lines(f.lines@)
    &&& new.block_stack == old.block_stack
    &&& new.diff_lines == old.diff_lines
    &&& new.last_diff_block_key == old.last_diff_block_key
    &&& new.verbose == old.verbose
}

/// One step of a run: a command, run where it can complete, that
/// succeeded; for an `Open`, the text read from its path handed to
/// `Engine::open_text`.
pub open spec fn run_step(old: Engine, new: Engine, c: Command, res: Result<Effect, NEditError>, text: Seq<char>) -> bool {
    &&& old.command_safe(c)
    &&& res is Ok
    &&& match c {
        Command::Open { file_path } => Engine::command_done(old, old, res, c) && opened(old, new, file_path@, text),
        _ => Engine::command_done(old, new, res, c),
    }
}

/// The path of the last `Open` among the first `k` commands.
pub open spec fn last_open_path(cs: Seq<Command>, k: int) -> Option<Seq<char>>
    decreases k,
{
    if k <= 0 {
        None
    } else {
        match cs[k - 1] {
            Command::Open { file_path } => Some(file_path@),
            _ => last_open_path(cs, k - 1),
        }
    }
}

/// The view of an optional path.
pub open spec fn path_view(p: Option<String>) -> Option<Seq<char>> {
    match p {
        Some(s) => Some(s@),
        None => None,
    }
}

/// What holds between the steps of a run that started from a new engine.
spec fn run_state(e: Engine, cs: Seq<Command>, k: int) -> bool {
    &&& path_view(e.file_path) == last_open_path(cs, k)
    &&& e.file_path is Some ==> e.file is Some
    &&& e.file is None ==> e.block_stack@.len() == 0
}

proof fn lemma_run_step(old: Engine, new: Engine, cs: Seq<Command>, res: Result<Effect, NEditError>, text: Seq<char>, k: int)
    requires
        0 <= k < cs.len(),
        run_state(old, cs, k),
        run_step(old, new, cs[k], res, text),
    ensures
        run_state(new, cs, k + 1),
{
    let c = cs[k];
    match c {
        Command::Open { file_path } => {},
        Command::Location { .. } => {},
        Command::New { position, content } => {},
        Command::Delete { .. } => {},
        Command::Raw { .. } => {},
        Command::Off { target } => {
            if target == OffTarget::Open {
                if old.file is Some {
                    lemma_collapsed_keeps_file(old.blocks(), old.file->0.lines@);
                } else {
                    assert(old.blocks() =~= Seq::<BlockView>::empty());
                }
            }
        },
    }
}

proof fn lemma_run(es: Seq<Engine>, cs: Seq<Command>, rs: Seq<Result<Effect, NEditError>>, texts: Seq<Seq<char>>, k: int)
    requires
        es.len() == cs.len() + 1,
        rs.len() == cs.len(),
        texts.len() == cs.len(),
        0 <= k <= cs.len(),
        run_state(es[0], cs, 0),
        forall|i: int| #![trigger cs[i]] 0 <= i < cs.len() ==> run_step(es[i], es[i + 1], cs[i], rs[i], texts[i]),
    ensures
        run_state(es[k], cs, k),
    decreases k,
{
    if k > 0 {
        lemma_run(es, cs, rs, texts, k - 1);
        let i = k - 1;
        assert(run_step(es[i], es[i + 1], cs[i], rs[i], texts[i]));
        lemma_run_step(es[i], es[i + 1], cs, rs[i], texts[i], i);
    }
}

/// A run that succeeds, from a new engine through its commands to the
/// implicit `Off:Open` that ends it (`Engine::finish`), leaves no block
/// open; when a file was opened, it writes the merged lines of the file
/// to the path of the last `Open`, whether or not the script closed the
/// file itself; when none was, it writes nothing.
pub proof fn law_successful_run_closes_everything(
    es: Seq<Engine>,
    cs: Seq<Command>,
    rs: Seq<Result<Effect, NEditError>>,
    texts: Seq<Seq<char>>,
    closed: Engine,
    eff: Effect,
)
    requires
        es.len() == cs.len() + 1,
        rs.len() == cs.len(),
        texts.len() == cs.len(),
        es[0].file is None,
        es[0].file_path is None,
        es[0].block_stack@.len() == 0,
        forall|i: int| #![trigger cs[i]] 0 <= i < cs.len() ==> run_step(es[i], es[i + 1], cs[i], rs[i], texts[i]),
        es.last().file is Some ==> Engine::flushed(es.last(), closed, eff),
        es.last().file is None ==> eff is Nothing && closed == es.last(),
    ensures
        closed.block_stack@.len() == 0,
        match last_open_path(cs, cs.len() as int) {
            Some(q) => eff matches Effect::WriteFile { path, text } && path@ == q
                && (closed.file matches Some(f) && text@ == written(f.lines@)
                && Some(f.lines@) == collapsed(es.last().blocks(), es.last().file_lines())),
            None => eff is Nothing,
        },
{
    lemma_run(es, cs, rs, texts, cs.len() as int);
    let last = es[cs.len() as int];
    assert(last == es.last());
    if last.file is Some {
        lemma_collapsed_keeps_file(last.blocks(), last.file->0.lines@);
    }
}

// ------------------------------------------------------------------
// What a match and a deletion consist of
// ------------------------------------------------------------------

/// Number of non-blank location lines.
pub open spec fn count_nonblank_loc(loc: Seq<LocationLine>) -> nat
    decreases loc.len(),
{
    if loc.len() == 0 {
        0
    } else {
        count_nonblank_loc(loc.drop_last()) + if is_blank(loc.last().content@) { 0nat } else { 1nat }
    }
}

/// `pos` pairs each non-blank location line with a non-blank line of
/// `lines` at or after `start`, in order and skipping only blank lines:
/// the `r`-th non-blank location line meets the `r`-th non-blank line
/// from `start`, with the same whitespace-free content and the same
/// indentation relative to line `start`.
pub open spec fn pairs_rows(lines: Seq<Line>, start: int, loc: Seq<LocationLine>, pos: Seq<int>) -> bool {
    &&& pos.len() == loc.len()
    &&& forall|j: int|
        #![trigger pos[j]]
        0 <= j < loc.len() && !is_blank(loc[j].content@) ==> count_nonblank(lines.subrange(start, pos[j]))
            == count_nonblank_loc(loc.take(j))
    &&& forall|j: int|
        #![trigger pos[j]]
        0 <= j < loc.len() && !is_blank(loc[j].content@) ==> {
            &&& start <= pos[j] < lines.len()
            &&& !is_blank(lines[pos[j]].content@)
            &&& lines[pos[j]].stripped_content@ == strip_ws(loc[j].content@)
            &&& (if lines[pos[j]].taps >= lines[start].taps {
                lines[pos[j]].taps - lines[start].taps
            } else {
                0
            }) == (match loc[j].diff_taps {
                Some(d) => d as int,
                None => 0,
            })
        }
    &&& forall|j: int, k: int|
        #![trigger pos[j], pos[k]]
        0 <= j < k < loc.len() && !is_blank(loc[j].content@) && !is_blank(loc[k].content@) ==> pos[j] < pos[k]
}

#[verifier::spinoff_prover]
proof fn lemma_rows_agree_pairs(lines: Seq<Line>, start: int, loc: Seq<LocationLine>, fi: int, li: int) -> (pos: Seq<int>)
    requires
        0 <= start < lines.len(),
        0 <= fi,
        0 <= li <= loc.len(),
        start + fi <= lines.len(),
        count_nonblank(lines.subrange(start, start + fi)) == count_nonblank_loc(loc.take(li)),
        rows_agree(lines, start, lines[start].taps, loc, fi, li),
    ensures
        pos.len() == loc.len(),
        forall|j: int|
            #![trigger pos[j]]
            li <= j < loc.len() && !is_blank(loc[j].content@) ==> start <= pos[j] && count_nonblank(lines.subrange(start, pos[j]))
                == count_nonblank_loc(loc.take(j)),
        forall|j: int|
            #![trigger pos[j]]
            li <= j < loc.len() && !is_blank(loc[j].content@) ==> {
                &&& start + fi <= pos[j] < lines.len()
                &&& !is_blank(lines[pos[j]].content@)
                &&& lines[pos[j]].stripped_content@ == strip_ws(loc[j].content@)
                &&& (if lines[pos[j]].taps >= lines[start].taps {
                    lines[pos[j]].taps - lines[start].taps
                } else {
                    0
                }) == (match loc[j].diff_taps {
                    Some(d) => d as int,
                    None => 0,
                })
            },
        forall|j: int, k: int|
            #![trigger pos[j], pos[k]]
            li <= j < k < loc.len() && !is_blank(loc[j].content@) && !is_blank(loc[k].content@) ==> pos[j] < pos[k],
    decreases lines.len() - start - fi + loc.len() - li,
{
    let base = lines[start].taps;
    if li >= loc.len() {
        Seq::new(loc.len(), |j: int| 0int)
    } else if start + fi >= lines.len() {
        assert(all_blank_from(loc, li));
        Seq::new(loc.len(), |j: int| 0int)
    } else {
        let f = lines[start + fi];
        let l = loc[li];
        let fe = is_blank(f.content@);
        let le = is_blank(l.content@);
        assert(lines.subrange(start, start + fi + 1).drop_last() =~= lines.subrange(start, start + fi));
        assert(lines.subrange(start, start + fi + 1).last() == f);
        assert(loc.take(li + 1).drop_last() =~= loc.take(li));
        assert(loc.take(li + 1).last() == l);
        if fe && le {
            lemma_rows_agree_pairs(lines, start, loc, fi + 1, li + 1)
        } else if fe {
            lemma_rows_agree_pairs(lines, start, loc, fi + 1, li)
        } else if le {
            lemma_rows_agree_pairs(lines, start, loc, fi, li + 1)
        } else {
            let p = lemma_rows_agree_pairs(lines, start, loc, fi + 1, li + 1);
            let pos = p.update(li, start + fi);
            assert(wanted_taps(l) == (match l.diff_taps {
                Some(d) => d as int,
                None => 0,
            }));
            assert forall|j: int, k: int|
                #![trigger pos[j], pos[k]]
                li <= j < k < loc.len() && !is_blank(loc[j].content@) && !is_blank(loc[k].content@) implies pos[j] < pos[k] by {
                if j == li {
                    assert(p[k] == pos[k]);
                    assert(start + fi + 1 <= p[k]);
                } else {
                    assert(p[j] == pos[j] && p[k] == pos[k]);
                }
            }
            assert forall|j: int|
                #![trigger pos[j]]
                li <= j < loc.len() && !is_blank(loc[j].content@) implies start <= pos[j] && count_nonblank(
                    lines.subrange(start, pos[j]),
                ) == count_nonblank_loc(loc.take(j)) by {
                if j != li {
                    assert(p[j] == pos[j]);
                }
            }
            assert forall|j: int|
                #![trigger pos[j]]
                li <= j < loc.len() && !is_blank(loc[j].content@) implies {
                    &&& start + fi <= pos[j] < lines.len()
                    &&& !is_blank(lines[pos[j]].content@)
                    &&& lines[pos[j]].stripped_content@ == strip_ws(loc[j].content@)
                    &&& (if lines[pos[j]].taps >= lines[start].taps {
                        lines[pos[j]].taps - lines[start].taps
                    } else {
                        0
                    }) == (match loc[j].diff_taps {
                        Some(d) => d as int,
                        None => 0,
                    })
                } by {
                if j != li {
                    assert(p[j] == pos[j]);
                }
            }
            pos
        }
    }
}

proof fn lemma_match_starts_here(lines: Seq<Line>, loc: Seq<LocationLine>, n: int, k: int)
    requires
        0 <= k < match_starts(lines, loc, n).len(),
    ensures
        0 <= match_starts(lines, loc, n)[k] < n,
        crate::matcher::starts_here(lines, loc, match_starts(lines, loc, n)[k]),
    decreases n,
{
    if n > 0 {
        let prev = match_starts(lines, loc, n - 1);
        if k < prev.len() {
            lemma_match_starts_here(lines, loc, n - 1, k);
            if crate::matcher::starts_here(lines, loc, n - 1) {
                assert(match_starts(lines, loc, n)[k] == prev[k]);
            }
        }
    }
}

/// A location matches only where each of its non-blank lines meets, in
/// order and skipping only blank lines, a non-blank line of the scope
/// with the same whitespace-free content and the same indentation
/// relative to the matched first line: the same content at another
/// relative indentation, or with other lines between, does not match.
pub proof fn law_match_keeps_relative_indentation(lines: Seq<Line>, loc: Seq<LocationLine>, k: int)
    requires
        loc.len() > 0,
        0 <= k < candidates(lines, loc).len(),
    ensures
        exists|pos: Seq<int>| #[trigger] pairs_rows(lines, candidates(lines, loc)[k], loc, pos),
{
    lemma_match_starts_here(lines, loc, lines.len() as int, k);
    let s = candidates(lines, loc)[k];
    assert(lines.subrange(s, s) =~= Seq::<Line>::empty());
    assert(loc.take(0) =~= Seq::<LocationLine>::empty());
    let pos = lemma_rows_agree_pairs(lines, s, loc, 0, 0);
    assert(pairs_rows(lines, s, loc, pos));
}

/// The block `b` lost, at `s`, lines that agree one for one with the
/// `Delete` lines `del`: a blank line for a blank one, otherwise a
/// non-blank line with the same whitespace-free content.
pub open spec fn removed_as_asked(old: Engine, new: Engine, del: Seq<DeleteLine>, s: int) -> bool {
    let lines = old.block_stack@.last().lines@;
    &&& 0 <= s
    &&& s + del.len() <= lines.len()
    &&& forall|k: int|
        #![trigger del[k]]
        0 <= k < del.len() ==> {
            &&& is_blank(lines[s + k].content@) == is_blank(del[k].content@)
            &&& !is_blank(del[k].content@) ==> lines[s + k].stripped_content@ == strip_ws(del[k].content@)
        }
    &&& Engine::lines_removed(old, new, s, s + del.len() - 1)
}

proof fn lemma_first_delete_place(lines: Seq<Line>, del: Seq<DeleteLine>, i: int)
    requires
        0 <= i < lines.len(),
        crate::engine::deletes_at(lines, del, i),
    ensures
        exists|j: int|
            0 <= j < lines.len() && #[trigger] crate::engine::deletes_at(lines, del, j) && forall|k: int|
                0 <= k < j ==> !crate::engine::deletes_at(lines, del, k),
    decreases i,
{
    if exists|k: int| 0 <= k < i && #[trigger] crate::engine::deletes_at(lines, del, k) {
        let k = choose|k: int| 0 <= k < i && #[trigger] crate::engine::deletes_at(lines, del, k);
        lemma_first_delete_place(lines, del, k);
    } else {
        assert(forall|k: int| 0 <= k < i ==> !crate::engine::deletes_at(lines, del, k));
    }
}

proof fn lemma_delete_start_matches(lines: Seq<Line>, del: Seq<DeleteLine>)
    requires
        delete_start(lines, del) is Some,
    ensures
        del.len() > 0,
        0 <= delete_start(lines, del)->0 < lines.len(),
        crate::engine::deletes_at(lines, del, delete_start(lines, del)->0),
        forall|j: int| 0 <= j < delete_start(lines, del)->0 ==> !crate::engine::deletes_at(lines, del, j),
{
    let i = choose|i: int| 0 <= i < lines.len() && #[trigger] crate::engine::deletes_at(lines, del, i);
    lemma_first_delete_place(lines, del, i);
}

/// A `Delete` by content that succeeds removes, consecutively, lines that
/// agree with its lines one for one: a non-blank `Delete` line never
/// matches a blank line of the block, so no line it names is left behind.
#[verifier::spinoff_prover]
pub proof fn law_delete_removes_the_lines_it_names(old: Engine, new: Engine, del: Seq<DeleteLine>)
    requires
        Engine::match_delete_done(old, new, Ok(()), del),
    ensures
        old.block_stack@.len() > 0,
        del.len() > 0,
        exists|s: int| #[trigger] removed_as_asked(old, new, del, s),
{
    let b = old.block_stack@.last();
    let lines = b.lines@;
    lemma_delete_start_matches(lines, del);
    let s = delete_start(lines, del)->0;
    assert forall|k: int|
        #![trigger del[k]]
        0 <= k < del.len() implies {
            &&& is_blank(lines[s + k].content@) == is_blank(del[k].content@)
            &&& !is_blank(del[k].content@) ==> lines[s + k].stripped_content@ == strip_ws(del[k].content@)
        } by {
        assert(crate::engine::del_row_ok(lines[s + k], del[k]));
    }
    assert(removed_as_asked(old, new, del, s));
}

proof fn lemma_no_nonblank(lines: Seq<Line>)
    ensures
        count_nonblank(lines) == 0 <==> forall|i: int| 0 <= i < lines.len() ==> is_blank(#[trigger] lines[i].content@),
    decreases lines.len(),
{
    if lines.len() > 0 {
        lemma_no_nonblank(lines.drop_last());
        if count_nonblank(lines) == 0 {
            assert forall|i: int| 0 <= i < lines.len() implies is_blank(#[trigger] lines[i].content@) by {
                if i < lines.len() - 1 {
                    assert(lines.drop_last()[i] == lines[i]);
                }
            }
        } else if forall|i: int| 0 <= i < lines.len() ==> is_blank(#[trigger] lines[i].content@) {
            assert forall|i: int| 0 <= i < lines.drop_last().len() implies is_blank(#[trigger] lines.drop_last()[i].content@) by {
                assert(lines.drop_last()[i] == lines[i]);
            }
            assert(is_blank(lines[lines.len() - 1].content@));
        }
    }
}

/// A `Delete` by content after located lines must follow them with
/// nothing but blank lines between: it succeeds only if every line
/// strictly between the last located line and its first line is blank,
/// and otherwise fails with `DeleteNotAdjacent`, reporting how many
/// non-blank lines lie between, and changes nothing.
#[verifier::spinoff_prover]
pub proof fn law_delete_follows_the_location(
    old: Engine,
    new: Engine,
    res: Result<(), NEditError>,
    del: Seq<DeleteLine>,
    m: usize,
    s: int,
)
    requires
        Engine::match_delete_done(old, new, res, del),
        old.block_stack@.len() > 0,
        old.block_stack@.last().match_info == (MatchInfo::Location { matched_line_count: m }),
        m > 0,
        delete_start(old.block_stack@.last().lines@, del) == Some(s),
        s >= m,
    ensures
        (res is Ok) <==> (forall|i: int| m <= i < s ==> is_blank(#[trigger] old.block_stack@.last().lines@[i].content@)),
        res is Err ==> (new == old && (res matches Err(NEditError::Match(MatchError::DeleteNotAdjacent { gap_lines, .. }))
            && gap_lines == count_nonblank(old.block_stack@.last().lines@.subrange(m as int, s)))),
{
    let b = old.block_stack@.last();
    lemma_delete_start_matches(b.lines@, del);
    let gap = b.lines@.subrange(m as int, s);
    lemma_no_nonblank(gap);
    assert(crate::engine::gap_before(b@, s) == count_nonblank(gap));
    if forall|i: int| m <= i < s ==> is_blank(#[trigger] b.lines@[i].content@) {
        assert forall|i: int| 0 <= i < gap.len() implies is_blank(#[trigger] gap[i].content@) by {
            assert(gap[i] == b.lines@[m + i]);
        }
    } else {
        let i = choose|i: int| m <= i < s && !is_blank(#[trigger] b.lines@[i].content@);
        assert(gap[i - m] == b.lines@[i]);
    }
}

// ------------------------------------------------------------------
// Brace blocks
// ------------------------------------------------------------------

/// Brace depth after the characters `s`, starting from `d`: each `{`
/// opens one more level (up to the largest `usize`), each `}` closes one
/// (never below 0).
pub open spec fn depth_after(s: Seq<char>, d: int) -> int
    decreases s.len(),
{
    if s.len() == 0 {
        d
    } else {
        let c = s[0];
        let d1 = if c == '{' {
            if d >= usize::MAX { d } else { d + 1 }
        } else if c == '}' {
            if d > 0 { d - 1 } else { 0 }
        } else {
            d
        };
        depth_after(s.drop_first(), d1)
    }
}

/// Brace depth at the end of lines `from..to`, starting from 0.
pub open spec fn depth_through(lines: Seq<Line>, from: int, to: int) -> int
    decreases to - from,
{
    if to <= from {
        0
    } else {
        depth_after(lines[to - 1].content@, depth_through(lines, from, to - 1))
    }
}

/// Code without string literals or comments: no `"` and no `/`.
pub open spec fn plain_code(s: Seq<char>) -> bool {
    forall|i: int| 0 <= i < s.len() ==> s[i] != '"' && s[i] != '/'
}

/// A scanner state outside strings and comments, at depth 1 or more once
/// a `{` was seen.
spec fn scan_state_ok(st: ScanState) -> bool {
    &&& !st.in_str
    &&& !st.in_comment
    &&& st.opened ==> st.depth >= 1
}

#[verifier::spinoff_prover]
proof fn lemma_scan_plain(cs: Seq<char>, k: int, st: ScanState)
    requires
        0 <= k <= cs.len(),
        plain_code(cs),
        scan_state_ok(st),
    ensures
        scan_from(cs, k, st) matches Scan::Open(next) ==> scan_state_ok(next)
            && next.depth == depth_after(cs.skip(k), st.depth as int),
        scan_from(cs, k, st) is Closed ==> exists|j: int|
            k <= j < cs.len() && cs[j] == '}' && #[trigger] depth_after(cs.subrange(k, j), st.depth as int) == 1,
    decreases cs.len() - k,
{
    if k < cs.len() {
        let c = cs[k];
        assert(c != '"' && c != '/');
        assert(cs.skip(k)[0] == c);
        assert(cs.skip(k).drop_first() =~= cs.skip(k + 1));
        if c == '{' {
            let d = if st.depth == usize::MAX { usize::MAX } else { (st.depth + 1) as usize };
            let nst = ScanState { depth: d, opened: true, ..st };
            lemma_scan_plain(cs, k + 1, nst);
            if scan_from(cs, k, st) is Closed {
                let j = choose|j: int|
                    k + 1 <= j < cs.len() && cs[j] == '}' && #[trigger] depth_after(cs.subrange(k + 1, j), nst.depth as int) == 1;
                assert(cs.subrange(k, j)[0] == c);
                assert(cs.subrange(k, j).drop_first() =~= cs.subrange(k + 1, j));
                assert(depth_after(cs.subrange(k, j), st.depth as int) == 1);
            }
        } else if c == '}' {
            if st.opened && st.depth <= 1 {
                assert(cs.subrange(k, k) =~= Seq::<char>::empty());
                assert(depth_after(cs.subrange(k, k), st.depth as int) == 1);
            } else {
                let d = if st.depth == 0 { 0 } else { (st.depth - 1) as usize };
                let nst = ScanState { depth: d, ..st };
                lemma_scan_plain(cs, k + 1, nst);
                if scan_from(cs, k, st) is Closed {
                    let j = choose|j: int|
                        k + 1 <= j < cs.len() && cs[j] == '}' && #[trigger] depth_after(cs.subrange(k + 1, j), nst.depth as int) == 1;
                    assert(cs.subrange(k, j)[0] == c);
                    assert(cs.subrange(k, j).drop_first() =~= cs.subrange(k + 1, j));
                    assert(depth_after(cs.subrange(k, j), st.depth as int) == 1);
                }
            }
        } else if c == ';' && !st.opened {
        } else {
            lemma_scan_plain(cs, k + 1, st);
            if scan_from(cs, k, st) is Closed {
                let j = choose|j: int|
                    k + 1 <= j < cs.len() && cs[j] == '}' && #[trigger] depth_after(cs.subrange(k + 1, j), st.depth as int) == 1;
                assert(cs.subrange(k, j)[0] == c);
                assert(cs.subrange(k, j).drop_first() =~= cs.subrange(k + 1, j));
                assert(depth_after(cs.subrange(k, j), st.depth as int) == 1);
            }
        }
    } else {
        assert(cs.skip(k) =~= Seq::<char>::empty());
    }
}

#[verifier::spinoff_prover]
proof fn lemma_brace_end_depth(lines: Seq<Line>, start: int, i: int, st: ScanState)
    requires
        0 <= start <= i,
        scan_state_ok(st),
        st.depth == depth_through(lines, start, i),
        forall|k: int| start <= k < lines.len() ==> plain_code(#[trigger] lines[k].content@),
        brace_end(lines, i, st) is Some,
    ensures
        ({
            let e = brace_end(lines, i, st)->0;
            &&& i <= e < lines.len()
            &&& exists|j: int|
                0 <= j < lines[e].content@.len() && lines[e].content@[j] == '}'
                    && #[trigger] depth_after(lines[e].content@.take(j), depth_through(lines, start, e)) == 1
        }),
    decreases lines.len() - i,
{
    let cs = lines[i].content@;
    assert(plain_code(cs));
    lemma_scan_plain(cs, 0, st);
    assert(cs.skip(0) =~= cs);
    assert(i < lines.len());
    assert(!(!st.opened && is_blank(cs)));
    match scan_from(cs, 0, st) {
        Scan::Closed => {
            assert(brace_end(lines, i, st) == Some(i));
            let j = choose|j: int| 0 <= j < cs.len() && cs[j] == '}' && #[trigger] depth_after(cs.subrange(0, j), st.depth as int) == 1;
            assert(cs.subrange(0, j) =~= cs.take(j));
            assert(depth_after(lines[i].content@.take(j), depth_through(lines, start, i)) == 1);
        },
        Scan::Rejected => {},
        Scan::Open(next) => {
            assert(brace_end(lines, i, st) == brace_end(lines, i + 1, next));
            assert(depth_through(lines, start, i + 1) == depth_after(cs, depth_through(lines, start, i)));
            lemma_brace_end_depth(lines, start, i + 1, next);
        },
    }
}

/// A line that opens a brace block (in code without strings or comments)
/// opens a block that ends on the line holding the `}` that balances its
/// first `{`: the brace depth counted from the header is 1 just before
/// that `}`, so nested `{ }` pairs inside lie within the block.
pub proof fn law_brace_block_ends_at_its_balancing_brace(lines: Seq<Line>, start: int)
    requires
        0 <= start < lines.len(),
        !ends_with_colon(lines[start].content@),
        block_span(lines, start) is Some,
        forall|k: int| start <= k < lines.len() ==> plain_code(#[trigger] lines[k].content@),
    ensures
        ({
            let (s, e) = block_span(lines, start)->0;
            &&& s == start
            &&& start <= e < lines.len()
            &&& exists|j: int|
                0 <= j < lines[e].content@.len() && lines[e].content@[j] == '}'
                    && #[trigger] depth_after(lines[e].content@.take(j), depth_through(lines, start, e)) == 1
        }),
{
    lemma_brace_end_depth(lines, start, start, initial_state());
}

// ------------------------------------------------------------------
// Indentation blocks
// ------------------------------------------------------------------

/// A line an indentation block looks past: blank, or a `#` comment.
pub open spec fn skippable(l: Line) -> bool {
    is_blank(l.content@) || is_hash_comment(l.content@)
}

#[verifier::spinoff_prover]
proof fn lemma_indent_end(lines: Seq<Line>, start: int, i: int, end: int)
    requires
        0 <= start < lines.len(),
        start < i <= lines.len(),
        start <= end < i,
        end > start ==> !skippable(lines[end]) && lines[end].taps > lines[start].taps,
        forall|k: int| start < k < i ==> skippable(#[trigger] lines[k]) || lines[k].taps > lines[start].taps,
        forall|k: int| end < k < i ==> skippable(#[trigger] lines[k]),
    ensures
        ({
            let r = indent_end(lines, start, i, end);
            &&& start <= r < lines.len()
            &&& r > start ==> !skippable(lines[r]) && lines[r].taps > lines[start].taps
            &&& forall|k: int| start < k <= r ==> skippable(#[trigger] lines[k]) || lines[k].taps > lines[start].taps
            &&& forall|k: int|
                #![trigger lines[k]]
                r < k < lines.len() && !skippable(lines[k]) && (forall|q: int| r < q < k ==> skippable(#[trigger] lines[q]))
                    ==> lines[k].taps <= lines[start].taps
        }),
    decreases lines.len() - i,
{
    let r = indent_end(lines, start, i, end);
    if i >= lines.len() {
        assert forall|k: int|
            #![trigger lines[k]]
            r < k < lines.len() && !skippable(lines[k]) && (forall|q: int| r < q < k ==> skippable(#[trigger] lines[q]))
                implies lines[k].taps <= lines[start].taps by {
            assert(skippable(lines[k]));
        }
    } else if skippable(lines[i]) {
        lemma_indent_end(lines, start, i + 1, end);
    } else if lines[i].taps > lines[start].taps {
        lemma_indent_end(lines, start, i + 1, i);
    } else {
        assert(r == end);
        assert forall|k: int|
            #![trigger lines[k]]
            r < k < lines.len() && !skippable(lines[k]) && (forall|q: int| r < q < k ==> skippable(#[trigger] lines[q]))
                implies lines[k].taps <= lines[start].taps by {
            if k < i {
                assert(skippable(lines[k]));
            } else if k > i {
                assert(skippable(lines[i]));
            }
        }
    }
}

/// A line that ends with `:` opens an indentation block: every line of the
/// block after the header is blank, a `#` comment, or indented deeper
/// than the header; the block ends on a deeper line; and the first line
/// after it that is neither blank nor a comment, if any, is indented no
/// deeper than the header.
pub proof fn law_indent_block_holds_the_deeper_lines(lines: Seq<Line>, start: int)
    requires
        0 <= start < lines.len(),
        ends_with_colon(lines[start].content@),
        block_span(lines, start) is Some,
    ensures
        ({
            let (s, e) = block_span(lines, start)->0;
            &&& s == start
            &&& start < e < lines.len()
            &&& !skippable(lines[e]) && lines[e].taps > lines[start].taps
            &&& forall|k: int| start < k <= e ==> skippable(#[trigger] lines[k]) || lines[k].taps > lines[start].taps
            &&& forall|k: int|
                #![trigger lines[k]]
                e < k < lines.len() && !skippable(lines[k]) && (forall|q: int| e < q < k ==> skippable(#[trigger] lines[q]))
                    ==> lines[k].taps <= lines[start].taps
        }),
{
    if start + 1 <= lines.len() {
        lemma_indent_end(lines, start, start + 1, start);
    }
}

/// The `Delete` lines agree, one for one, with the block lines from `i`:
/// a blank line for a blank one, otherwise a non-blank line with the same
/// whitespace-free content.
#[verifier::opaque]
pub open spec fn delete_agrees_at(lines: Seq<Line>, del: Seq<DeleteLine>, i: int) -> bool {
    &&& 0 <= i
    &&& i + del.len() <= lines.len()
    &&& forall|k: int|
        #![trigger del[k]]
        0 <= k < del.len() ==> {
            &&& is_blank(lines[i + k].content@) == is_blank(del[k].content@)
            &&& !is_blank(del[k].content@) ==> lines[i + k].stripped_content@ == strip_ws(del[k].content@)
        }
}

proof fn lemma_strip_blank(s: Seq<char>)
    requires
        is_blank(s),
    ensures
        strip_ws(s) == Seq::<char>::empty(),
    decreases s.len(),
{
    if s.len() > 0 {
        assert(is_ws(s[s.len() - 1]));
        assert forall|i: int| 0 <= i < s.drop_last().len() implies is_ws(#[trigger] s.drop_last()[i]) by {
            assert(s.drop_last()[i] == s[i]);
        }
        lemma_strip_blank(s.drop_last());
    }
}

proof fn lemma_deletes_at_agrees(lines: Seq<Line>, del: Seq<DeleteLine>, i: int)
    requires
        del.len() > 0,
        forall|q: int| 0 <= q < lines.len() ==> (#[trigger] lines[q]).stripped_content@ == strip_ws(lines[q].content@),
    ensures
        crate::engine::deletes_at(lines, del, i) == delete_agrees_at(lines, del, i),
{
    reveal(delete_agrees_at);
    if delete_agrees_at(lines, del, i) {
        assert forall|k: int| 0 <= k < del.len() implies crate::engine::del_row_ok(lines[i + k], #[trigger] del[k]) by {
        }
        assert(is_blank(lines[i].content@) == is_blank(del[0].content@));
        if is_blank(del[0].content@) {
            lemma_strip_blank(del[0].content@);
            lemma_strip_blank(lines[i].content@);
        }
    }
    if crate::engine::deletes_at(lines, del, i) {
        assert forall|k: int|
            #![trigger del[k]]
            0 <= k < del.len() implies {
                &&& is_blank(lines[i + k].content@) == is_blank(del[k].content@)
                &&& !is_blank(del[k].content@) ==> lines[i + k].stripped_content@ == strip_ws(del[k].content@)
            } by {
            assert(crate::engine::del_row_ok(lines[i + k], del[k]));
        }
    }
}

/// A `Delete` by content is found at the first place where its lines agree
/// one for one with the block's lines (a blank line only with a blank
/// one), and nowhere if there is no such place (for lines whose stripped
/// content is their whitespace-free text).
proof fn lemma_agree_none(lines: Seq<Line>, del: Seq<DeleteLine>, i: int)
    requires
        del.len() > 0,
        forall|q: int| 0 <= q < lines.len() ==> (#[trigger] lines[q]).stripped_content@ == strip_ws(lines[q].content@),
        delete_start(lines, del) is None,
    ensures
        !delete_agrees_at(lines, del, i),
{
    lemma_deletes_at_agrees(lines, del, i);
    if delete_agrees_at(lines, del, i) {
        assert(crate::engine::deletes_at(lines, del, i));
        assert(0 <= i < lines.len());
        lemma_first_delete_place(lines, del, i);
        assert(false);
    }
}

#[verifier::spinoff_prover]
proof fn lemma_agree_some(lines: Seq<Line>, del: Seq<DeleteLine>, s: int)
    requires
        del.len() > 0,
        forall|q: int| 0 <= q < lines.len() ==> (#[trigger] lines[q]).stripped_content@ == strip_ws(lines[q].content@),
        delete_start(lines, del) is Some,
    ensures
        (delete_start(lines, del) == Some(s)) <==> (delete_agrees_at(lines, del, s) && forall|j: int|
            0 <= j < s ==> !delete_agrees_at(lines, del, j)),
{
    lemma_delete_start_matches(lines, del);
    let c = delete_start(lines, del)->0;
    lemma_deletes_at_agrees(lines, del, c);
    lemma_deletes_at_agrees(lines, del, s);
    assert forall|j: int| 0 <= j < c implies !delete_agrees_at(lines, del, j) by {
        lemma_deletes_at_agrees(lines, del, j);
    }
    if delete_agrees_at(lines, del, s) && forall|j: int| 0 <= j < s ==> !delete_agrees_at(lines, del, j) {
        if c < s {
            assert(!delete_agrees_at(lines, del, c));
        } else if s < c {
            assert(!delete_agrees_at(lines, del, s));
        }
    }
}

#[verifier::spinoff_prover]
pub proof fn law_delete_is_found_at_the_first_agreeing_place(lines: Seq<Line>, del: Seq<DeleteLine>, s: int)
    requires
        del.len() > 0,
        forall|q: int| 0 <= q < lines.len() ==> (#[trigger] lines[q]).stripped_content@ == strip_ws(lines[q].content@),
    ensures
        (delete_start(lines, del) == Some(s)) <==> (delete_agrees_at(lines, del, s) && forall|j: int|
            0 <= j < s ==> !delete_agrees_at(lines, del, j)),
        (delete_start(lines, del) is None) <==> (forall|i: int| !delete_agrees_at(lines, del, i)),
{
    if delete_start(lines, del) is Some {
        lemma_agree_some(lines, del, s);
        let c = delete_start(lines, del)->0;
        lemma_agree_some(lines, del, c);
    } else {
        assert forall|i: int| !delete_agrees_at(lines, del, i) by {
            lemma_agree_none(lines, del, i);
        }
    }
}

proof fn lemma_count_step(lines: Seq<Line>, a: int, x: int)
    requires
        0 <= a <= x < lines.len(),
    ensures
        count_nonblank(lines.subrange(a, x + 1)) == count_nonblank(lines.subrange(a, x)) + if is_blank(lines[x].content@) {
            0nat
        } else {
            1nat
        },
{
    assert(lines.subrange(a, x + 1).drop_last() =~= lines.subrange(a, x));
    assert(lines.subrange(a, x + 1).last() == lines[x]);
}

proof fn lemma_count_mono(lines: Seq<Line>, a: int, x: int, y: int)
    requires
        0 <= a <= x <= y <= lines.len(),
    ensures
        count_nonblank(lines.subrange(a, x)) <= count_nonblank(lines.subrange(a, y)),
    decreases y - x,
{
    if x < y {
        lemma_count_mono(lines, a, x, y - 1);
        lemma_count_step(lines, a, y - 1);
    }
}

proof fn lemma_loc_count_step(loc: Seq<LocationLine>, x: int)
    requires
        0 <= x < loc.len(),
    ensures
        count_nonblank_loc(loc.take(x + 1)) == count_nonblank_loc(loc.take(x)) + if is_blank(loc[x].content@) {
            0nat
        } else {
            1nat
        },
{
    assert(loc.take(x + 1).drop_last() =~= loc.take(x));
    assert(loc.take(x + 1).last() == loc[x]);
}

proof fn lemma_loc_count_mono(loc: Seq<LocationLine>, x: int, y: int)
    requires
        0 <= x <= y <= loc.len(),
    ensures
        count_nonblank_loc(loc.take(x)) <= count_nonblank_loc(loc.take(y)),
    decreases y - x,
{
    if x < y {
        lemma_loc_count_mono(loc, x, y - 1);
        lemma_loc_count_step(loc, y - 1);
    }
}

/// A pairing that skips only blank lines makes the rows agree.
#[verifier::spinoff_prover]
proof fn lemma_pairs_make_rows_agree(lines: Seq<Line>, start: int, loc: Seq<LocationLine>, pos: Seq<int>, fi: int, li: int)
    requires
        0 <= start < lines.len(),
        0 <= fi,
        start + fi <= lines.len(),
        0 <= li <= loc.len(),
        pairs_rows(lines, start, loc, pos),
        count_nonblank(lines.subrange(start, start + fi)) == count_nonblank_loc(loc.take(li)),
    ensures
        rows_agree(lines, start, lines[start].taps, loc, fi, li),
    decreases lines.len() - start - fi + loc.len() - li,
{
    if li >= loc.len() {
    } else if start + fi >= lines.len() {
        assert forall|j: int| li <= j < loc.len() implies is_blank(#[trigger] loc[j].content@) by {
            if !is_blank(loc[j].content@) {
                let p = pos[j];
                lemma_count_step(lines, start, p);
                lemma_count_mono(lines, start, p + 1, lines.len() as int);
                lemma_loc_count_mono(loc, li, j);
                assert(start + fi == lines.len());
                assert(false);
            }
        }
    } else {
        let f = lines[start + fi];
        let l = loc[li];
        let fe = is_blank(f.content@);
        let le = is_blank(l.content@);
        lemma_count_step(lines, start, start + fi);
        lemma_loc_count_step(loc, li);
        if fe && le {
            lemma_pairs_make_rows_agree(lines, start, loc, pos, fi + 1, li + 1);
        } else if fe {
            lemma_pairs_make_rows_agree(lines, start, loc, pos, fi + 1, li);
        } else if le {
            lemma_pairs_make_rows_agree(lines, start, loc, pos, fi, li + 1);
        } else {
            let p = pos[li];
            lemma_count_step(lines, start, p);
            if p < start + fi {
                lemma_count_mono(lines, start, p + 1, start + fi);
                assert(false);
            } else if p > start + fi {
                lemma_count_mono(lines, start, start + fi + 1, p);
                assert(false);
            }
            assert(p == start + fi);
            lemma_pairs_make_rows_agree(lines, start, loc, pos, fi + 1, li + 1);
        }
    }
}

proof fn lemma_match_starts_has(lines: Seq<Line>, loc: Seq<LocationLine>, n: int, i: int)
    requires
        0 <= i < n,
        crate::matcher::starts_here(lines, loc, i),
    ensures
        match_starts(lines, loc, n).contains(i),
    decreases n,
{
    if i < n - 1 {
        lemma_match_starts_has(lines, loc, n - 1, i);
        let prev = match_starts(lines, loc, n - 1);
        let k = choose|k: int| 0 <= k < prev.len() && prev[k] == i;
        if crate::matcher::starts_here(lines, loc, n - 1) {
            assert(match_starts(lines, loc, n)[k] == i);
        }
    } else {
        let prev = match_starts(lines, loc, n - 1);
        assert(match_starts(lines, loc, n)[prev.len() as int] == i);
    }
}

/// Conversely, a location matches wherever its first line has the
/// scope line's whitespace-free content and its non-blank lines pair, in
/// order and skipping only blank lines, with the scope's non-blank lines
/// at the same whitespace-free content and relative indentation: blank
/// lines on either side never stop a match.
pub proof fn law_pairing_rows_match(lines: Seq<Line>, loc: Seq<LocationLine>, start: int, pos: Seq<int>)
    requires
        loc.len() > 0,
        0 <= start < lines.len(),
        lines[start].stripped_content@ == strip_ws(loc[0].content@),
        pairs_rows(lines, start, loc, pos),
    ensures
        candidates(lines, loc).contains(start),
{
    assert(lines.subrange(start, start) =~= Seq::<Line>::empty());
    assert(loc.take(0) =~= Seq::<LocationLine>::empty());
    lemma_pairs_make_rows_agree(lines, start, loc, pos, 0, 0);
    lemma_match_starts_has(lines, loc, lines.len() as int, start);
}

proof fn lemma_indent_end_reaches(lines: Seq<Line>, start: int, i: int, end: int, k: int)
    requires
        0 <= start < lines.len(),
        start < i <= k < lines.len(),
        start <= end,
        !skippable(lines[k]) && lines[k].taps > lines[start].taps,
        forall|q: int| i <= q < k ==> skippable(#[trigger] lines[q]),
    ensures
        indent_end(lines, start, i, end) >= k,
    decreases lines.len() - i,
{
    if i < k {
        assert(skippable(lines[i]));
        lemma_indent_end_reaches(lines, start, i + 1, end, k);
    } else {
        lemma_indent_end_at_least(lines, start, i + 1, k);
    }
}

proof fn lemma_indent_end_at_least(lines: Seq<Line>, start: int, i: int, end: int)
    requires
        end < i,
    ensures
        indent_end(lines, start, i, end) >= end,
    decreases lines.len() - i,
{
    if 0 <= i < lines.len() {
        if skippable(lines[i]) {
            lemma_indent_end_at_least(lines, start, i + 1, end);
        } else if lines[i].taps > lines[start].taps {
            lemma_indent_end_at_least(lines, start, i + 1, i);
        }
    }
}

/// A line that ends with `:` opens an indentation block whenever the
/// first line after it that is neither blank nor a `#` comment is
/// indented deeper than it.
pub proof fn law_deeper_line_opens_an_indent_block(lines: Seq<Line>, start: int, k: int)
    requires
        0 <= start < k < lines.len(),
        ends_with_colon(lines[start].content@),
        !skippable(lines[k]) && lines[k].taps > lines[start].taps,
        forall|q: int| start < q < k ==> skippable(#[trigger] lines[q]),
    ensures
        block_span(lines, start) is Some,
{
    lemma_indent_end_reaches(lines, start, start + 1, start, k);
}

/// Scanning plain code with no `{` and no `;` from a state that has not
/// seen a `{` goes through the whole line without seeing one.
proof fn lemma_scan_unopened(cs: Seq<char>, k: int, st: ScanState)
    requires
        0 <= k <= cs.len(),
        plain_code(cs),
        scan_state_ok(st),
        !st.opened,
        forall|i: int| k <= i < cs.len() ==> cs[i] != '{' && cs[i] != ';',
    ensures
        scan_from(cs, k, st) matches Scan::Open(next) && scan_state_ok(next) && !next.opened,
    decreases cs.len() - k,
{
    if k < cs.len() {
        let c = cs[k];
        assert(c != '"' && c != '/' && c != '{' && c != ';');
        if c == '}' {
            let d = if st.depth == 0 { 0 } else { (st.depth - 1) as usize };
            lemma_scan_unopened(cs, k + 1, ScanState { depth: d, ..st });
        } else {
            lemma_scan_unopened(cs, k + 1, st);
        }
    }
}

/// Scanning plain code that reaches a `;` before any `{`, from a state
/// that has not seen a `{`, rejects the block.
proof fn lemma_scan_rejects(cs: Seq<char>, k: int, st: ScanState, p: int)
    requires
        0 <= k <= p < cs.len(),
        plain_code(cs),
        scan_state_ok(st),
        !st.opened,
        cs[p] == ';',
        forall|i: int| k <= i < p ==> cs[i] != '{',
    ensures
        scan_from(cs, k, st) is Rejected,
    decreases cs.len() - k,
{
    let c = cs[k];
    assert(c != '"' && c != '/');
    if k < p {
        assert(c != '{');
        if c == ';' {
        } else if c == '}' {
            let d = if st.depth == 0 { 0 } else { (st.depth - 1) as usize };
            lemma_scan_rejects(cs, k + 1, ScanState { depth: d, ..st }, p);
        } else {
            lemma_scan_rejects(cs, k + 1, st, p);
        }
    }
}

proof fn lemma_brace_end_none(lines: Seq<Line>, i: int, st: ScanState, k: int)
    requires
        0 <= i <= k < lines.len(),
        scan_state_ok(st),
        !st.opened,
        forall|q: int| i <= q <= k ==> plain_code(#[trigger] lines[q].content@),
        forall|q: int|
            #![trigger lines[q]]
            i <= q < k ==> !is_blank(lines[q].content@) && forall|t: int|
                0 <= t < lines[q].content@.len() ==> lines[q].content@[t] != '{' && lines[q].content@[t] != ';',
        is_blank(lines[k].content@) || exists|p: int|
            0 <= p < lines[k].content@.len() && #[trigger] lines[k].content@[p] == ';' && forall|t: int|
                0 <= t < p ==> lines[k].content@[t] != '{',
    ensures
        brace_end(lines, i, st) is None,
    decreases k - i,
{
    let cs = lines[i].content@;
    assert(plain_code(cs));
    if i < k {
        assert(!is_blank(cs));
        lemma_scan_unopened(cs, 0, st);
        let next = scan_from(cs, 0, st)->Open_0;
        lemma_brace_end_none(lines, i + 1, next, k);
    } else if !is_blank(cs) {
        let p = choose|p: int|
            0 <= p < cs.len() && #[trigger] cs[p] == ';' && forall|t: int| 0 <= t < p ==> cs[t] != '{';
        lemma_scan_rejects(cs, 0, st, p);
    }
}

/// A brace block needs its `{` before any statement ends: in code
/// without strings or comments, when a `;` or a blank line comes before
/// any `{` from the header on, the line opens no block.
pub proof fn law_statement_before_brace_opens_no_block(lines: Seq<Line>, start: int, k: int)
    requires
        0 <= start <= k < lines.len(),
        !ends_with_colon(lines[start].content@),
        forall|q: int| start <= q <= k ==> plain_code(#[trigger] lines[q].content@),
        forall|q: int|
            #![trigger lines[q]]
            start <= q < k ==> !is_blank(lines[q].content@) && forall|t: int|
                0 <= t < lines[q].content@.len() ==> lines[q].content@[t] != '{' && lines[q].content@[t] != ';',
        is_blank(lines[k].content@) || exists|p: int|
            0 <= p < lines[k].content@.len() && #[trigger] lines[k].content@[p] == ';' && forall|t: int|
                0 <= t < p ==> lines[k].content@[t] != '{',
    ensures
        block_span(lines, start) is None,
{
    lemma_brace_end_none(lines, start, initial_state(), k);
}

} // verus!
