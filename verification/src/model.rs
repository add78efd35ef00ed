//! Data model of an editing session: the lines of the open file, the
//! content blocks that `Location` commands carve out of it, and the parsed
//! contents of `Location` / `New` / `Delete` commands.
use crate::text::{
    count_spaces, decimal, decimal_string, leading_spaces, push_char, split_lines,
    strip_whitespace, strip_ws, text_lines, texts_of,
};
use vstd::prelude::*;

verus! {

/// How many ambiguous candidates a `TooManyMatches` report lists.
pub const MAX_CANDIDATE_DISPLAY: usize = 3;

/// Longest candidate line (in bytes) shown unabridged in a report.
pub const CANDIDATE_SNIPPET_MAX_LEN: usize = 80;

/// How many lines of the current block a failed `Delete` report shows.
pub const BLOCK_SNIPPET_MAX_LINES: usize = 5;

/// A 1-based line number.
#[derive(Clone, Copy, Debug)]
pub struct LineNumber(pub usize);

impl PartialEq for LineNumber {
    fn eq(&self, other: &Self) -> (r: bool) {
        self.0 == other.0
    }
}

impl vstd::std_specs::cmp::PartialEqSpecImpl for LineNumber {
    open spec fn obeys_eq_spec() -> bool {
        true
    }

    open spec fn eq_spec(&self, other: &Self) -> bool {
        self.0 == other.0
    }
}

impl PartialEq<usize> for LineNumber {
    fn eq(&self, other: &usize) -> (r: bool) {
        self.0 == *other
    }
}

impl vstd::std_specs::cmp::PartialEqSpecImpl<usize> for LineNumber {
    open spec fn obeys_eq_spec() -> bool {
        true
    }

    open spec fn eq_spec(&self, other: &usize) -> bool {
        self.0 == *other
    }
}

impl Eq for LineNumber {}

impl LineNumber {
    /// The line number `n`.
    pub fn new(n: usize) -> (res: LineNumber)
        ensures
            res.0 == n,
    {
        LineNumber(n)
    }

    /// The line number of the line at 0-based position `index`.
    pub fn from_index(index: usize) -> (res: LineNumber)
        requires
            index < usize::MAX,
        ensures
            res.0 == index + 1,
    {
        LineNumber(index + 1)
    }

    /// The 0-based position of this line (line 0 is taken as position 0).
    pub fn to_index(&self) -> (res: usize)
        ensures
            res == idx_of(*self),
    {
        if self.0 == 0 {
            0
        } else {
            self.0 - 1
        }
    }

    pub fn to_usize(&self) -> (res: usize)
        ensures
            res == self.0,
    {
        self.0
    }

    /// Decimal rendering, as `Display` prints it.
    pub fn to_text(&self) -> (res: String)
        ensures
            res@ == decimal(self.0 as nat),
    {
        decimal_string(self.0)
    }
}

/// 0-based position of a line number (saturating at 0).
pub open spec fn idx_of(n: LineNumber) -> usize {
    if n.0 == 0 { 0 } else { (n.0 - 1) as usize }
}

/// `a + b`, capped at `usize::MAX`.
pub open spec fn sat_add(a: int, b: int) -> usize {
    if a + b > usize::MAX { usize::MAX } else { (a + b) as usize }
}

/// `a - b`, floored at 0.
pub open spec fn sat_sub(a: int, b: int) -> usize {
    if a - b < 0 { 0 } else { (a - b) as usize }
}

/// One line of the file being edited.
#[derive(Debug)]
pub struct Line {
    /// 1-based line number (absolute in the file when the block was cut)
    pub line_num: LineNumber,
    /// number of leading ASCII spaces
    pub taps: usize,
    /// indentation relative to the first line of the enclosing block
    pub diff_taps: usize,
    /// the text of the line, without its line break
    pub content: String,
    /// `content` with all whitespace removed
    pub stripped_content: String,
}

impl Line {
    /// A line parsed from raw text: its indentation and stripped content
    /// are computed from `content`.
    pub fn from_text(line_num: LineNumber, content: &str) -> (res: Line)
        ensures
            res.line_num == line_num,
            res.taps == leading_spaces(content@),
            res.diff_taps == 0,
            res.content@ == content@,
            res.stripped_content@ == strip_ws(content@),
    {
        Line {
            line_num,
            taps: count_spaces(content),
            diff_taps: 0,
            content: String::from_str(content),
            stripped_content: strip_whitespace(content),
        }
    }

    /// The cached whitespace-free form of the line.
    pub fn stripped_content(&self) -> (res: &str)
        ensures
            res@ == self.stripped_content@,
    {
        self.stripped_content.as_str()
    }

    /// An identical copy.
    pub fn duplicate(&self) -> (res: Line)
        ensures
            res == *self,
    {
        Line {
            line_num: self.line_num,
            taps: self.taps,
            diff_taps: self.diff_taps,
            content: self.content.clone(),
            stripped_content: self.stripped_content.clone(),
        }
    }
}

/// A copy of `lines[from..to]`.
pub fn copy_lines(lines: &Vec<Line>, from: usize, to: usize) -> (res: Vec<Line>)
    requires
        from <= to <= lines@.len(),
    ensures
        res@ == lines@.subrange(from as int, to as int),
{
    let mut out: Vec<Line> = Vec::new();
    let mut i = from;
    while i < to
        invariant
            from <= i <= to <= lines@.len(),
            out@ == lines@.subrange(from as int, i as int),
        decreases to - i,
    {
        out.push(lines[i].duplicate());
        assert(out@ =~= lines@.subrange(from as int, i + 1));
        i = i + 1;
    }
    out
}

/// `line` with a new number and relative indentation; text unchanged.
pub open spec fn renumber(line: Line, num: usize, base_taps: usize) -> Line {
    Line {
        line_num: LineNumber(num),
        taps: line.taps,
        diff_taps: sat_sub(line.taps as int, base_taps as int),
        content: line.content,
        stripped_content: line.stripped_content,
    }
}

/// The lines renumbered consecutively from `first`, with indentation made
/// relative to the first line.
pub open spec fn reindexed(lines: Seq<Line>, first: int) -> Seq<Line> {
    Seq::new(
        lines.len(),
        |i: int| renumber(lines[i], sat_add(first, i), if lines.len() == 0 { 0 } else { lines[0].taps }),
    )
}

/// Renumbers `lines` in place from `first` (see `reindexed`).
pub fn reindex_lines(lines: &mut Vec<Line>, first: usize)
    ensures
        final(lines)@ == reindexed(old(lines)@, first as int),
{
    let n = lines.len();
    if n == 0 {
        assert(final(lines)@ =~= reindexed(old(lines)@, first as int));
        return;
    }
    let base = lines[0].taps;
    let ghost orig = lines@;
    let mut i: usize = 0;
    while i < n
        invariant
            n == lines@.len() == orig.len(),
            n > 0,
            base == orig[0].taps,
            i <= n,
            forall|j: int| 0 <= j < i ==> lines@[j] == reindexed(orig, first as int)[j],
            forall|j: int| i <= j < n ==> lines@[j] == orig[j],
        decreases n - i,
    {
        let num = first.saturating_add(i);
        let taps = lines[i].taps;
        let diff = taps.saturating_sub(base);
        let mut line = lines.remove(i);
        line.line_num = LineNumber(num);
        line.diff_taps = diff;
        lines.insert(i, line);
        i = i + 1;
    }
    assert(lines@ =~= reindexed(orig, first as int));
}

/// How a block was obtained, which decides where `New` inserts.
#[derive(Debug, PartialEq, Eq, Structural, Clone, Copy)]
pub enum MatchInfo {
    /// an empty `Location`: the whole search scope
    Empty,
    /// a matched `Location`; its lines are the first `matched_line_count`
    Location { matched_line_count: usize },
    /// a `Delete` removed lines starting at `position`
    DeleteAt { position: usize },
}

/// A span of lines cut out of the file (or out of an enclosing block).
#[derive(Debug)]
pub struct ContentBlock {
    /// number of the first line in the parent when the block was cut
    pub start_line: LineNumber,
    /// number of the last line in the parent when the block was cut
    pub end_line: LineNumber,
    /// the current lines of the block
    pub lines: Vec<Line>,
    pub match_info: MatchInfo,
}

/// What a block holds, as specifications see it.
pub struct BlockView {
    pub start_line: LineNumber,
    pub end_line: LineNumber,
    pub lines: Seq<Line>,
    pub match_info: MatchInfo,
}

impl View for ContentBlock {
    type V = BlockView;

    open spec fn view(&self) -> BlockView {
        BlockView {
            start_line: self.start_line,
            end_line: self.end_line,
            lines: self.lines@,
            match_info: self.match_info,
        }
    }
}

impl ContentBlock {
    /// Renumbers the lines from `start_line` and recomputes their relative
    /// indentation; `start_line`, `end_line` and `match_info` stay.
    pub fn reindex(&mut self)
        ensures
            final(self).lines@ == reindexed(old(self).lines@, old(self).start_line.0 as int),
            final(self).start_line == old(self).start_line,
            final(self).end_line == old(self).end_line,
            final(self).match_info == old(self).match_info,
    {
        let first = self.start_line.0;
        reindex_lines(&mut self.lines, first);
    }
}

/// The whole file being edited.
#[derive(Debug)]
pub struct FileContent {
    pub lines: Vec<Line>,
}

/// The text written back for `lines`: every line followed by `\n`.
pub open spec fn joined_text(lines: Seq<Seq<char>>) -> Seq<char>
    decreases lines.len(),
{
    if lines.len() == 0 {
        Seq::empty()
    } else {
        joined_text(lines.drop_last()) + lines.last().push('\n')
    }
}

/// The text of each line.
pub open spec fn contents(lines: Seq<Line>) -> Seq<Seq<char>> {
    Seq::new(lines.len(), |i: int| lines[i].content@)
}

/// Lines as reading a file makes them: numbered from 1, indentation and
/// stripped content computed from the text, indentation relative to the
/// first line.
pub open spec fn fresh_lines(lines: Seq<Line>) -> bool {
    forall|i: int| 0 <= i < lines.len() ==> {
        &&& (#[trigger] lines[i]).line_num.0 == i + 1
        &&& lines[i].taps == leading_spaces(lines[i].content@)
        &&& lines[i].stripped_content@ == strip_ws(lines[i].content@)
        &&& lines[i].diff_taps == sat_sub(lines[i].taps as int, lines[0].taps as int)
    }
}

impl FileContent {
    /// Parses file text into numbered lines (numbers from 1, indentation
    /// relative to the first line).
    pub fn from_text(text: &str) -> (res: FileContent)
        ensures
            contents(res.lines@) == text_lines(text@),
            fresh_lines(res.lines@),
    {
        let pieces = split_lines(text);
        let n = pieces.len();
        let mut lines: Vec<Line> = Vec::new();
        let mut j: usize = 0;
        while j < pieces.len()
            invariant
                j <= pieces@.len(),
                n == pieces@.len(),
                texts_of(pieces@) == text_lines(text@),
                lines@.len() == j,
                forall|k: int| 0 <= k < j ==> {
                    &&& (#[trigger] lines@[k]).content@ == pieces@[k]@
                    &&& lines@[k].line_num.0 == k + 1
                    &&& lines@[k].taps == leading_spaces(lines@[k].content@)
                    &&& lines@[k].stripped_content@ == strip_ws(lines@[k].content@)
                },
            decreases pieces@.len() - j,
        {
            lines.push(Line::from_text(LineNumber(j + 1), pieces[j].as_str()));
            j = j + 1;
        }
        reindex_lines(&mut lines, 1);
        let res = FileContent { lines };
        assert(contents(res.lines@) =~= text_lines(text@));
        res
    }

    /// The text that writing the file back produces.
    pub fn to_text(&self) -> (res: String)
        ensures
            res@ == joined_text(contents(self.lines@)),
    {
        let mut out = String::new();
        let mut i: usize = 0;
        while i < self.lines.len()
            invariant
                i <= self.lines@.len(),
                out@ == joined_text(contents(self.lines@.take(i as int))),
            decreases self.lines@.len() - i,
        {
            assert(contents(self.lines@.take(i + 1)).drop_last() =~= contents(self.lines@.take(i as int)));
            out.append(self.lines[i].content.as_str());
            push_char(&mut out, '\n');
            i = i + 1;
        }
        assert(self.lines@.take(self.lines@.len() as int) =~= self.lines@);
        out
    }
}

/// One line of a `Location` command.
#[derive(Debug)]
pub struct LocationLine {
    /// position within the command
    pub index: usize,
    /// indentation relative to the first line of the command
    pub diff_taps: Option<usize>,
    pub content: String,
    pub line_num: Option<LineNumber>,
}

/// The lines a `Location` command matches on.
#[derive(Debug)]
pub struct LocationContent {
    pub lines: Vec<LocationLine>,
}

/// One line of a `New` command.
#[derive(Debug)]
pub struct NewLine {
    /// absolute indentation of the line
    pub diff_taps: usize,
    /// the text without its indentation (verbatim when `is_raw`)
    pub content: String,
    /// literal text from a `Raw` command: written as is
    pub is_raw: bool,
}

/// The lines a `New` command inserts.
#[derive(Debug)]
pub struct NewContent {
    pub lines: Vec<NewLine>,
}

/// One line of a `Delete` command.
#[derive(Debug)]
pub struct DeleteLine {
    pub content: String,
    pub is_raw: bool,
}

/// The lines a `Delete` command removes.
#[derive(Debug)]
pub struct DeleteContent {
    pub lines: Vec<DeleteLine>,
}

/// An inclusive range of 1-based line numbers (`@start,end`).
#[derive(Debug, Clone, Copy, PartialEq, Eq, Structural)]
pub struct LineRange {
    pub start: usize,
    pub end: usize,
}

/// Where a `Location` searches: the whole file, or the enclosing block.
pub enum SearchScope<'a> {
    File(&'a FileContent),
    Block(&'a ContentBlock),
}

impl<'a> SearchScope<'a> {
    pub open spec fn spec_lines(&self) -> Seq<Line> {
        match self {
            SearchScope::File(f) => f.lines@,
            SearchScope::Block(b) => b.lines@,
        }
    }

    /// The lines in scope.
    pub fn lines(&self) -> (res: &'a Vec<Line>)
        ensures
            res@ == self.spec_lines(),
    {
        match self {
            SearchScope::File(f) => &f.lines,
            SearchScope::Block(b) => &b.lines,
        }
    }
}

/// `content` with all whitespace removed.
pub fn stripped_content(content: &str) -> (res: String)
    ensures
        res@ == strip_ws(content@),
{
    strip_whitespace(content)
}

/// Number of ASCII spaces that open `content`.
pub fn count_leading_spaces(content: &str) -> (res: usize)
    ensures
        res == leading_spaces(content@),
{
    count_spaces(content)
}

} // verus!
