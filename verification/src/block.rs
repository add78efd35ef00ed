//! Code-block boundaries for `Location:Block` / `Delete:Block`.
//!
//! A line that ends with `:` opens an indentation block (Python, YAML): the
//! block runs over the following lines indented deeper than the header,
//! blank lines and `#` comments included, up to the last deeper line.
//! Any other line opens a brace block: characters are scanned from the
//! header on, skipping string literals (with `\` escapes), `//` line
//! comments and `/* */` comments, until the `}` that closes the first `{`.
//! A `;` or a blank line before the first `{` means there is no block.
use crate::error::MatchError;
use crate::model::{Line, SearchScope};
use crate::text::{chars_of, is_blank, is_ws, is_whitespace};
use vstd::prelude::*;

verus! {

/// Brace-scanner state carried from character to character and line to line.
#[derive(Clone, Copy, Debug, PartialEq, Eq, Structural)]
pub struct ScanState {
    /// open `{` not yet closed
    pub depth: usize,
    /// a `{` has been seen
    pub opened: bool,
    /// inside a string literal
    pub in_str: bool,
    /// the previous string character was a backslash
    pub escaped: bool,
    /// inside a `/* */` comment
    pub in_comment: bool,
}

/// What scanning one line concludes.
#[derive(Clone, Copy, Debug, PartialEq, Eq, Structural)]
pub enum Scan {
    /// the block goes on past this line
    Open(ScanState),
    /// the first `{` was closed on this line
    Closed,
    /// a statement ended before any `{`: no block
    Rejected,
}

pub open spec fn initial_state() -> ScanState {
    ScanState { depth: 0, opened: false, in_str: false, escaped: false, in_comment: false }
}

/// Scans `cs[k..]` from state `st`.
pub open spec fn scan_from(cs: Seq<char>, k: int, st: ScanState) -> Scan
    decreases cs.len() - k,
{
    if k < 0 || k >= cs.len() {
        Scan::Open(st)
    } else {
        let c = cs[k];
        let next_is = |d: char| k + 1 < cs.len() && cs[k + 1] == d;
        if st.in_comment {
            if c == '*' && next_is('/') {
                scan_from(cs, k + 2, ScanState { in_comment: false, ..st })
            } else {
                scan_from(cs, k + 1, st)
            }
        } else if st.in_str {
            if st.escaped {
                scan_from(cs, k + 1, ScanState { escaped: false, ..st })
            } else if c == '\\' {
                scan_from(cs, k + 1, ScanState { escaped: true, ..st })
            } else if c == '"' {
                scan_from(cs, k + 1, ScanState { in_str: false, ..st })
            } else {
                scan_from(cs, k + 1, st)
            }
        } else if c == '/' && next_is('/') {
            Scan::Open(st)
        } else if c == '/' && next_is('*') {
            scan_from(cs, k + 2, ScanState { in_comment: true, ..st })
        } else if c == '"' {
            scan_from(cs, k + 1, ScanState { in_str: true, ..st })
        } else if c == '{' {
            let d = if st.depth == usize::MAX { usize::MAX } else { (st.depth + 1) as usize };
            scan_from(cs, k + 1, ScanState { depth: d, opened: true, ..st })
        } else if c == '}' {
            if st.opened && st.depth <= 1 {
                Scan::Closed
            } else {
                let d = if st.depth == 0 { 0 } else { (st.depth - 1) as usize };
                scan_from(cs, k + 1, ScanState { depth: d, ..st })
            }
        } else if c == ';' && !st.opened {
            Scan::Rejected
        } else {
            scan_from(cs, k + 1, st)
        }
    }
}

/// Index of the line that closes the brace block, scanning from line `i`.
pub open spec fn brace_end(lines: Seq<Line>, i: int, st: ScanState) -> Option<int>
    decreases lines.len() - i,
{
    if i < 0 || i >= lines.len() {
        None
    } else if !st.opened && is_blank(lines[i].content@) {
        None
    } else {
        match scan_from(lines[i].content@, 0, st) {
            Scan::Closed => Some(i),
            Scan::Rejected => None,
            Scan::Open(next) => brace_end(lines, i + 1, next),
        }
    }
}

/// The last non-whitespace character of `s` is `:`.
pub open spec fn ends_with_colon(s: Seq<char>) -> bool
    decreases s.len(),
{
    if s.len() == 0 {
        false
    } else if is_ws(s.last()) {
        ends_with_colon(s.drop_last())
    } else {
        s.last() == ':'
    }
}

/// The first non-whitespace character of `s` is `#`.
pub open spec fn is_hash_comment(s: Seq<char>) -> bool
    decreases s.len(),
{
    if s.len() == 0 {
        false
    } else if is_ws(s[0]) {
        is_hash_comment(s.drop_first())
    } else {
        s[0] == '#'
    }
}

/// Last line of the indentation block under `start`, looking from line `i`;
/// `end` is the last deeper line seen so far.
pub open spec fn indent_end(lines: Seq<Line>, start: int, i: int, end: int) -> int
    decreases lines.len() - i,
{
    if i < 0 || i >= lines.len() {
        end
    } else if is_blank(lines[i].content@) || is_hash_comment(lines[i].content@) {
        indent_end(lines, start, i + 1, end)
    } else if lines[i].taps > lines[start].taps {
        indent_end(lines, start, i + 1, i)
    } else {
        end
    }
}

/// The block that the line at `start` opens, as inclusive indices.
pub open spec fn block_span(lines: Seq<Line>, start: int) -> Option<(int, int)> {
    if ends_with_colon(lines[start].content@) {
        let e = indent_end(lines, start, start + 1, start);
        if e > start { Some((start, e)) } else { None }
    } else {
        match brace_end(lines, start, initial_state()) {
            Some(e) => Some((start, e)),
            None => None,
        }
    }
}

/// Scans one line (see `scan_from`).
pub fn scan_line(cs: &Vec<char>, init: ScanState) -> (res: Scan)
    ensures
        res == scan_from(cs@, 0, init),
{
    let n = cs.len();
    let mut k: usize = 0;
    let mut st = init;
    while k < n
        invariant
            n == cs@.len(),
            k <= n + 1,
            scan_from(cs@, k as int, st) == scan_from(cs@, 0, init),
        decreases n + 1 - k,
    {
        let c = cs[k];
        let next_slash = k + 1 < n && cs[k + 1] == '/';
        let next_star = k + 1 < n && cs[k + 1] == '*';
        if st.in_comment {
            if c == '*' && next_slash {
                st = ScanState { in_comment: false, ..st };
                k = k + 2;
            } else {
                k = k + 1;
            }
        } else if st.in_str {
            if st.escaped {
                st = ScanState { escaped: false, ..st };
            } else if c == '\\' {
                st = ScanState { escaped: true, ..st };
            } else if c == '"' {
                st = ScanState { in_str: false, ..st };
            }
            k = k + 1;
        } else if c == '/' && next_slash {
            return Scan::Open(st);
        } else if c == '/' && next_star {
            st = ScanState { in_comment: true, ..st };
            k = k + 2;
        } else if c == '"' {
            st = ScanState { in_str: true, ..st };
            k = k + 1;
        } else if c == '{' {
            st = ScanState { depth: st.depth.saturating_add(1), opened: true, ..st };
            k = k + 1;
        } else if c == '}' {
            if st.opened && st.depth <= 1 {
                return Scan::Closed;
            }
            st = ScanState { depth: st.depth.saturating_sub(1), ..st };
            k = k + 1;
        } else if c == ';' && !st.opened {
            return Scan::Rejected;
        } else {
            k = k + 1;
        }
    }
    Scan::Open(st)
}


/// Whether the last non-whitespace character is `:`.
pub fn line_ends_with_colon(s: &str) -> (res: bool)
    ensures
        res == ends_with_colon(s@),
{
    let cs = chars_of(s);
    let mut k = cs.len();
    assert(cs@.take(k as int) =~= s@);
    while k > 0 && is_whitespace(cs[k - 1])
        invariant
            k <= cs@.len(),
            cs@ == s@,
            ends_with_colon(cs@.take(k as int)) == ends_with_colon(s@),
        decreases k,
    {
        assert(cs@.take(k as int).drop_last() =~= cs@.take(k - 1));
        k = k - 1;
    }
    if k == 0 {
        false
    } else {
        assert(cs@.take(k as int).last() == cs@[k - 1]);
        cs[k - 1] == ':'
    }
}

/// Whether the first non-whitespace character is `#`.
pub fn line_is_hash_comment(s: &str) -> (res: bool)
    ensures
        res == is_hash_comment(s@),
{
    let cs = chars_of(s);
    let mut k: usize = 0;
    assert(cs@.skip(0) =~= s@);
    while k < cs.len() && is_whitespace(cs[k])
        invariant
            k <= cs@.len(),
            cs@ == s@,
            is_hash_comment(cs@.skip(k as int)) == is_hash_comment(s@),
        decreases cs@.len() - k,
    {
        assert(cs@.skip(k as int).drop_first() =~= cs@.skip(k + 1));
        k = k + 1;
    }
    if k == cs.len() {
        assert(cs@.skip(k as int).len() == 0);
        false
    } else {
        assert(cs@.skip(k as int)[0] == cs@[k as int]);
        cs[k] == '#'
    }
}

/// Finds the line that closes the brace block opened at or after `start`.
fn find_brace_end(lines: &Vec<Line>, start: usize) -> (res: Option<usize>)
    requires
        start < lines@.len(),
    ensures
        match res {
            Some(e) => brace_end(lines@, start as int, initial_state()) == Some(e as int),
            None => brace_end(lines@, start as int, initial_state()) is None,
        },
{
    let mut i = start;
    let mut st = ScanState { depth: 0, opened: false, in_str: false, escaped: false, in_comment: false };
    while i < lines.len()
        invariant
            start <= i <= lines@.len(),
            brace_end(lines@, i as int, st) == brace_end(lines@, start as int, initial_state()),
        decreases lines@.len() - i,
    {
        if !st.opened && crate::text::blank(lines[i].content.as_str()) {
            return None;
        }
        let cs = chars_of(lines[i].content.as_str());
        match scan_line(&cs, st) {
            Scan::Closed => {
                return Some(i);
            },
            Scan::Rejected => {
                return None;
            },
            Scan::Open(next) => {
                st = next;
            },
        }
        i = i + 1;
    }
    None
}

/// Finds the last line of the indentation block under `start`.
fn find_indent_end(lines: &Vec<Line>, start: usize) -> (res: usize)
    requires
        start < lines@.len(),
    ensures
        res == indent_end(lines@, start as int, start + 1, start as int),
{
    let base = lines[start].taps;
    let _n = lines.len();
    let mut end = start;
    let mut i = start + 1;
    while i < lines.len()
        invariant
            start < i <= lines@.len(),
            start <= end < i,
            base == lines@[start as int].taps,
            indent_end(lines@, start as int, i as int, end as int)
                == indent_end(lines@, start as int, start + 1, start as int),
        decreases lines@.len() - i,
    {
        let content = lines[i].content.as_str();
        if crate::text::blank(content) || line_is_hash_comment(content) {
        } else if lines[i].taps > base {
            end = i;
        } else {
            return end;
        }
        i = i + 1;
    }
    end
}

/// Block boundary parser for `Location:Block`.
pub struct BlockParser;

impl BlockParser {
    /// The block that the line at `start_index` of the scope opens, as
    /// inclusive indices into the scope's lines.
    pub fn parse_block(scope: &SearchScope, start_index: usize) -> (res: Result<(usize, usize), MatchError>)
        requires
            start_index < scope.spec_lines().len(),
        ensures
            match res {
                Ok((s, e)) => block_span(scope.spec_lines(), start_index as int) == Some((s as int, e as int)),
                Err(err) => {
                    &&& block_span(scope.spec_lines(), start_index as int) is None
                    &&& err matches MatchError::BlockNotParseable { location_content }
                    &&& location_content@ == scope.spec_lines()[start_index as int].content@
                },
            },
            res matches Ok((s, e)) ==> s == start_index && start_index <= e < scope.spec_lines().len(),
    {
        let lines = scope.lines();
        let header = lines[start_index].content.as_str();
        let span = if line_ends_with_colon(header) {
            let e = find_indent_end(lines, start_index);
            proof { lemma_indent_end_bounds(lines@, start_index as int, start_index + 1, start_index as int); }
            if e > start_index { Some((start_index, e)) } else { None }
        } else {
            match find_brace_end(lines, start_index) {
                Some(e) => {
                    proof { lemma_brace_end_bounds(lines@, start_index as int, initial_state()); }
                    Some((start_index, e))
                },
                None => None,
            }
        };
        match span {
            Some(p) => Ok(p),
            None => Err(MatchError::BlockNotParseable { location_content: lines[start_index].content.clone() }),
        }
    }
}

pub proof fn lemma_brace_end_bounds(lines: Seq<Line>, i: int, st: ScanState)
    ensures
        brace_end(lines, i, st) matches Some(e) ==> i <= e < lines.len(),
    decreases lines.len() - i,
{
    if 0 <= i < lines.len() {
        if let Scan::Open(next) = scan_from(lines[i].content@, 0, st) {
            lemma_brace_end_bounds(lines, i + 1, next);
        }
    }
}

pub proof fn lemma_indent_end_bounds(lines: Seq<Line>, start: int, i: int, end: int)
    requires
        0 <= end < lines.len(),
        end < i,
    ensures
        end <= indent_end(lines, start, i, end) < lines.len(),
    decreases lines.len() - i,
{
    if 0 <= i < lines.len() {
        if is_blank(lines[i].content@) || is_hash_comment(lines[i].content@) {
            lemma_indent_end_bounds(lines, start, i + 1, end);
        } else if lines[i].taps > lines[start].taps {
            lemma_indent_end_bounds(lines, start, i + 1, i);
        }
    }
}

} // verus!
