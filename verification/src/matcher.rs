//! Location matching: finds the unique place in the search scope whose
//! lines agree with a `Location` command, comparing whitespace-free content
//! and indentation relative to the first matched line, and skipping blank
//! lines on either side.
use crate::block::{block_span, BlockParser};
use crate::error::MatchError;
use crate::model::{
    copy_lines, reindexed, sat_sub, ContentBlock, Line, LineNumber, LineRange, LocationContent,
    LocationLine, MatchInfo, SearchScope, CANDIDATE_SNIPPET_MAX_LEN, MAX_CANDIDATE_DISPLAY,
};
use crate::text::{
    abbreviate, abbreviated, blank, decimal, is_blank, join_with,
    lemma_join_step, push_char, push_decimal, push_text, strip_whitespace, strip_ws,
};
use vstd::prelude::*;

verus! {

/// Relative indentation a location line asks for (`None` counts as 0).
pub open spec fn wanted_taps(l: LocationLine) -> usize {
    match l.diff_taps {
        Some(d) => d,
        None => 0,
    }
}

/// The location lines from `li` on are all blank.
pub open spec fn all_blank_from(loc: Seq<LocationLine>, li: int) -> bool {
    forall|j: int| li <= j < loc.len() ==> is_blank(#[trigger] loc[j].content@)
}

/// Walks file line `start + fi` and location line `li` forward, skipping
/// blank lines on either side; every non-blank location line must meet a
/// non-blank file line of the scope that agrees with it in stripped content
/// and in indentation relative to `base`.
pub open spec fn rows_agree(
    lines: Seq<Line>,
    start: int,
    base: usize,
    loc: Seq<LocationLine>,
    fi: int,
    li: int,
) -> bool
    decreases lines.len() - start - fi + loc.len() - li,
{
    if fi < 0 || li < 0 || li >= loc.len() {
        true
    } else if start + fi >= lines.len() {
        all_blank_from(loc, li)
    } else {
        let f = lines[start + fi];
        let l = loc[li];
        let fe = is_blank(f.content@);
        let le = is_blank(l.content@);
        if fe && le {
            rows_agree(lines, start, base, loc, fi + 1, li + 1)
        } else if fe {
            rows_agree(lines, start, base, loc, fi + 1, li)
        } else if le {
            rows_agree(lines, start, base, loc, fi, li + 1)
        } else if f.stripped_content@ != strip_ws(l.content@) {
            false
        } else if sat_sub(f.taps as int, base as int) != wanted_taps(l) {
            false
        } else {
            rows_agree(lines, start, base, loc, fi + 1, li + 1)
        }
    }
}

/// The location lines agree with the file lines that start at `start`.
pub open spec fn rows_match_at(lines: Seq<Line>, start: int, loc: Seq<LocationLine>) -> bool {
    &&& 0 <= start < lines.len()
    &&& rows_agree(lines, start, lines[start].taps, loc, 0, 0)
}

/// A match may start at line `i`.
pub open spec fn starts_here(lines: Seq<Line>, loc: Seq<LocationLine>, i: int) -> bool {
    &&& lines[i].stripped_content@ == strip_ws(loc[0].content@)
    &&& rows_match_at(lines, i, loc)
}

/// The match starts among the first `n` lines, in increasing order.
pub open spec fn match_starts(lines: Seq<Line>, loc: Seq<LocationLine>, n: int) -> Seq<int>
    decreases n,
{
    if n <= 0 {
        Seq::empty()
    } else if starts_here(lines, loc, n - 1) {
        match_starts(lines, loc, n - 1).push(n - 1)
    } else {
        match_starts(lines, loc, n - 1)
    }
}

/// Every line where a match starts, in increasing order.
pub open spec fn candidates(lines: Seq<Line>, loc: Seq<LocationLine>) -> Seq<int> {
    match_starts(lines, loc, lines.len() as int)
}

/// The location text as an error report quotes it.
pub open spec fn location_text(loc: Seq<LocationLine>) -> Seq<char> {
    join_with(Seq::new(loc.len(), |i: int| loc[i].content@), seq!['\n'])
}

/// A candidate line as reported: a line longer than the limit is cut at
/// the last character boundary within the kept bytes, then `...` follows.
pub open spec fn snippet(s: Seq<char>) -> Seq<char> {
    abbreviated(s, CANDIDATE_SNIPPET_MAX_LEN as nat, (CANDIDATE_SNIPPET_MAX_LEN - 3) as nat)
}

/// The reported form of a candidate line.
fn snippet_of(content: &str) -> (res: String)
    ensures
        res@ == snippet(content@),
{
    abbreviate(content, CANDIDATE_SNIPPET_MAX_LEN, CANDIDATE_SNIPPET_MAX_LEN - 3)
}

/// How one candidate is listed: `  L<number>: <snippet>`.
pub open spec fn candidate_line(line: Line) -> Seq<char> {
    "  L"@ + decimal(line.line_num.0 as nat) + ": "@ + snippet(line.content@)
}

/// The candidate list of a `TooManyMatches` report.
pub open spec fn candidate_report(lines: Seq<Line>, c: Seq<int>) -> Seq<Seq<char>> {
    let shown = if c.len() > MAX_CANDIDATE_DISPLAY { MAX_CANDIDATE_DISPLAY as int } else { c.len() as int };
    let listed = Seq::new(shown as nat, |k: int| candidate_line(lines[c[k]]));
    if c.len() > MAX_CANDIDATE_DISPLAY {
        listed.push("  ("@ + decimal((c.len() - MAX_CANDIDATE_DISPLAY) as nat) + " more)"@)
    } else {
        listed
    }
}

/// The views of a list of strings.
pub open spec fn texts(v: Seq<String>) -> Seq<Seq<char>> {
    Seq::new(v.len(), |i: int| v[i]@)
}

/// `b` holds `lines[s..=e]`, renumbered from the number of line `s`, and
/// records `matched` located lines.
pub open spec fn is_cut(b: ContentBlock, lines: Seq<Line>, s: int, e: int, matched: int) -> bool {
    &&& 0 <= s <= e < lines.len()
    &&& b.start_line == lines[s].line_num
    &&& b.end_line == lines[e].line_num
    &&& b.lines@ == reindexed(lines.subrange(s, e + 1), lines[s].line_num.0 as int)
    &&& b.match_info == (if matched == 0 {
        MatchInfo::Empty
    } else {
        MatchInfo::Location { matched_line_count: matched as usize }
    })
}

/// `b` is the whole scope, as an empty `Location` yields it.
pub open spec fn is_whole_scope(b: ContentBlock, lines: Seq<Line>) -> bool {
    &&& b.lines@ == lines
    &&& b.start_line == (if lines.len() == 0 { LineNumber(1) } else { lines[0].line_num })
    &&& b.end_line == (if lines.len() == 0 { LineNumber(1) } else { lines.last().line_num })
    &&& b.match_info == MatchInfo::Empty
}

/// The span a located line opens: its block, or everything up to the end
/// of the scope.
pub open spec fn span_for(lines: Seq<Line>, start: int, block: bool) -> Option<(int, int)> {
    if block {
        block_span(lines, start)
    } else {
        Some((start, lines.len() - 1))
    }
}

/// The outcome of building a block from a located line `start`.
pub open spec fn built(
    res: Result<ContentBlock, MatchError>,
    lines: Seq<Line>,
    start: int,
    matched: int,
    block: bool,
) -> bool {
    match span_for(lines, start, block) {
        Some((s, e)) => res matches Ok(b) && is_cut(b, lines, s, e, if block { e - s + 1 } else { matched }),
        None => res matches Err(MatchError::BlockNotParseable { location_content })
            && location_content@ == lines[start].content@,
    }
}

/// The outcome of matching a non-empty location.
pub open spec fn located(
    res: Result<ContentBlock, MatchError>,
    lines: Seq<Line>,
    loc: Seq<LocationLine>,
    block: bool,
) -> bool {
    let c = candidates(lines, loc);
    if c.len() == 0 {
        res matches Err(MatchError::NoMatch { location_content })
            && location_content@ == location_text(loc)
    } else if c.len() == 1 {
        built(res, lines, c[0], loc.len() as int, block)
    } else {
        res matches Err(MatchError::TooManyMatches { count, candidates, location_content })
            && count == c.len()
            && texts(candidates@) == candidate_report(lines, c)
            && location_content@ == location_text(loc)
    }
}

/// Whether the location rows agree with the file rows from `start`.
fn rows_match(lines: &Vec<Line>, start: usize, location: &LocationContent) -> (res: bool)
    requires
        location.lines@.len() > 0,
    ensures
        res == rows_match_at(lines@, start as int, location.lines@),
{
    let loc = &location.lines;
    let n = loc.len();
    let total = lines.len();
    if start >= total {
        return false;
    }
    let base = lines[start].taps;
    let mut fi: usize = 0;
    let mut li: usize = 0;
    while li < n
        invariant
            n == loc@.len(),
            loc@ == location.lines@,
            total == lines@.len(),
            start < total,
            base == lines@[start as int].taps,
            fi <= total - start,
            li <= n,
            rows_agree(lines@, start as int, base, loc@, fi as int, li as int)
                == rows_agree(lines@, start as int, base, loc@, 0, 0),
        decreases total - start - fi + n - li,
    {
        let l = &loc[li];
        let le = blank(l.content.as_str());
        if fi >= total - start {
            if !le {
                return false;
            }
            proof {
                assert(all_blank_from(loc@, li as int) == all_blank_from(loc@, li as int + 1)) by {
                    if all_blank_from(loc@, li as int + 1) {
                        assert forall|j: int| li <= j < loc@.len() implies is_blank(#[trigger] loc@[j].content@) by {
                            if j > li {
                                assert(is_blank(loc@[j].content@));
                            }
                        }
                    }
                }
            }
            li = li + 1;
        } else {
            let f = &lines[start + fi];
            let fe = blank(f.content.as_str());
            if fe && le {
                fi = fi + 1;
                li = li + 1;
            } else if fe {
                fi = fi + 1;
            } else if le {
                li = li + 1;
            } else {
                let wanted = strip_whitespace(l.content.as_str());
                if !(f.stripped_content == wanted) {
                    return false;
                }
                let diff = f.taps.saturating_sub(base);
                let want = match l.diff_taps {
                    Some(d) => d,
                    None => 0,
                };
                if diff != want {
                    return false;
                }
                fi = fi + 1;
                li = li + 1;
            }
        }
    }
    true
}

/// The lines among the first `n` whose stripped content equals that of
/// the location's first line, in increasing order.
pub open spec fn first_matches(lines: Seq<Line>, loc: Seq<LocationLine>, n: int) -> Seq<int>
    decreases n,
{
    if n <= 0 {
        Seq::empty()
    } else if lines[n - 1].stripped_content@ == strip_ws(loc[0].content@) {
        first_matches(lines, loc, n - 1).push(n - 1)
    } else {
        first_matches(lines, loc, n - 1)
    }
}

/// The entries of `cand` from which the location rows agree.
pub open spec fn filter_rows(lines: Seq<Line>, loc: Seq<LocationLine>, cand: Seq<int>) -> Seq<int>
    decreases cand.len(),
{
    if cand.len() == 0 {
        Seq::empty()
    } else if rows_match_at(lines, cand.last(), loc) {
        filter_rows(lines, loc, cand.drop_last()).push(cand.last())
    } else {
        filter_rows(lines, loc, cand.drop_last())
    }
}

/// Indices as integers.
pub open spec fn ints(v: Seq<usize>) -> Seq<int> {
    Seq::new(v.len(), |k: int| v[k] as int)
}

/// Filtering the first-line matches by the remaining rows gives exactly the
/// match starts.
proof fn lemma_filter_first_matches(lines: Seq<Line>, loc: Seq<LocationLine>, n: int)
    ensures
        filter_rows(lines, loc, first_matches(lines, loc, n)) == match_starts(lines, loc, n),
    decreases n,
{
    if n > 0 {
        lemma_filter_first_matches(lines, loc, n - 1);
        let fm = first_matches(lines, loc, n - 1);
        if lines[n - 1].stripped_content@ == strip_ws(loc[0].content@) {
            assert(fm.push(n - 1).drop_last() =~= fm);
        }
    }
}

/// The lines where the location's first line (stripped) appears, in order.
///
/// This stands in for a hashed index from stripped lines to their
/// positions: one scan over the scope gives the same candidates in the
/// same order, and, unlike a map keyed by text, stays within what the
/// contract can state and prove.
fn collect_first_line_matches(scope: &SearchScope, location: &LocationContent) -> (res: Vec<usize>)
    requires
        location.lines@.len() > 0,
    ensures
        ints(res@) == first_matches(scope.spec_lines(), location.lines@, scope.spec_lines().len() as int),
{
    let lines = scope.lines();
    let target = strip_whitespace(location.lines[0].content.as_str());
    let mut out: Vec<usize> = Vec::new();
    let mut i: usize = 0;
    while i < lines.len()
        invariant
            i <= lines@.len(),
            lines@ == scope.spec_lines(),
            location.lines@.len() > 0,
            target@ == strip_ws(location.lines@[0].content@),
            ints(out@) == first_matches(lines@, location.lines@, i as int),
        decreases lines@.len() - i,
    {
        let ghost before = ints(out@);
        if lines[i].stripped_content == target {
            out.push(i);
            assert(ints(out@) =~= before.push(i as int));
        }
        i = i + 1;
    }
    out
}

/// Keeps the candidates from which every location row agrees.
fn filter_by_full_match(scope: &SearchScope, cand: Vec<usize>, location: &LocationContent) -> (res: Vec<usize>)
    requires
        location.lines@.len() > 0,
    ensures
        ints(res@) == filter_rows(scope.spec_lines(), location.lines@, ints(cand@)),
{
    let lines = scope.lines();
    let mut out: Vec<usize> = Vec::new();
    let mut k: usize = 0;
    while k < cand.len()
        invariant
            k <= cand@.len(),
            lines@ == scope.spec_lines(),
            location.lines@.len() > 0,
            ints(out@) == filter_rows(lines@, location.lines@, ints(cand@).take(k as int)),
        decreases cand@.len() - k,
    {
        let ghost before = ints(out@);
        assert(ints(cand@).take(k + 1).drop_last() =~= ints(cand@).take(k as int));
        assert(ints(cand@).take(k + 1).last() == cand@[k as int] as int);
        if rows_match(lines, cand[k], location) {
            out.push(cand[k]);
            assert(ints(out@) =~= before.push(cand@[k as int] as int));
        }
        k = k + 1;
    }
    assert(ints(cand@).take(cand@.len() as int) =~= ints(cand@));
    out
}

/// Where a line range lands in the scope, and what it yields.
pub open spec fn ranged(
    res: Result<ContentBlock, MatchError>,
    lines: Seq<Line>,
    range: LineRange,
    block: bool,
    is_delete: bool,
) -> bool {
    let n = lines.len() as int;
    let s = sat_sub(range.start as int, 1) as int;
    let e0 = if sat_sub(range.end as int, 1) < sat_sub(n, 1) { sat_sub(range.end as int, 1) as int } else { sat_sub(n, 1) as int };
    if s >= n {
        res matches Err(MatchError::NoMatch { location_content })
            && location_content@ == "行号 "@ + decimal(range.start as nat) + " 超出范围（共 "@ + decimal(n as nat) + " 行）"@
    } else if e0 < s {
        res matches Err(MatchError::NoMatch { location_content })
            && location_content@ == "无效的行号范围: @"@ + decimal(range.start as nat) + ","@ + decimal(range.end as nat)
    } else if block {
        match block_span(lines, s) {
            Some((bs, be)) => res matches Ok(b) && is_cut(b, lines, bs, be, if is_delete { 0 } else { be - bs + 1 }),
            None => res matches Err(MatchError::BlockNotParseable { location_content })
                && location_content@ == lines[s].content@,
        }
    } else {
        res matches Ok(b) && is_cut(b, lines, s, e0, if is_delete { 0 } else { e0 - s + 1 })
    }
}

/// `  L<number>: <snippet>` for one candidate line.
fn describe_candidate(line: &Line) -> (res: String)
    ensures
        res@ == candidate_line(*line),
{
    let mut out = String::new();
    push_text(&mut out, "  L");
    push_decimal(&mut out, line.line_num.0);
    push_text(&mut out, ": ");
    let snip = snippet_of(line.content.as_str());
    push_text(&mut out, snip.as_str());
    assert(out@ =~= candidate_line(*line));
    out
}

/// The location lines joined with line feeds, for error reports.
fn format_location_for_error(location: &LocationContent) -> (res: String)
    ensures
        res@ == location_text(location.lines@),
{
    let ghost parts = Seq::new(location.lines@.len(), |i: int| location.lines@[i].content@);
    let mut out = String::new();
    let mut i: usize = 0;
    assert(parts.take(0) =~= Seq::<Seq<char>>::empty());
    while i < location.lines.len()
        invariant
            i <= location.lines@.len(),
            parts == Seq::new(location.lines@.len(), |i: int| location.lines@[i].content@),
            out@ == join_with(parts.take(i as int), seq!['\n']),
        decreases location.lines@.len() - i,
    {
        if i > 0 {
            proof { lemma_join_step(parts, seq!['\n'], i as int); }
            push_char(&mut out, '\n');
        } else {
            assert(parts.take(1) =~= seq![parts[0]]);
        }
        push_text(&mut out, location.lines[i].content.as_str());
        i = i + 1;
    }
    assert(parts.take(parts.len() as int) =~= parts);
    out
}

/// Cuts `lines[block_start..=block_end]` out of the scope, renumbered from
/// the number of its first line.
fn cut_block(lines: &Vec<Line>, block_start: usize, block_end: usize, matched_line_count: usize) -> (res: ContentBlock)
    requires
        block_start <= block_end < lines@.len(),
    ensures
        is_cut(res, lines@, block_start as int, block_end as int, matched_line_count as int),
{
    let _n = lines.len();
    let copied = copy_lines(lines, block_start, block_end + 1);
    let match_info = if matched_line_count == 0 {
        MatchInfo::Empty
    } else {
        MatchInfo::Location { matched_line_count }
    };
    let mut content_block = ContentBlock {
        start_line: lines[block_start].line_num,
        end_line: lines[block_end].line_num,
        lines: copied,
        match_info,
    };
    content_block.reindex();
    content_block
}

/// Builds the block for the located line `start_index`: to the end of the
/// scope, or, for `Location:Block`, the code block it opens.
fn build_content_block(
    scope: &SearchScope,
    start_index: usize,
    matched_line_count: usize,
    block: bool,
) -> (res: Result<ContentBlock, MatchError>)
    requires
        start_index < scope.spec_lines().len(),
    ensures
        built(res, scope.spec_lines(), start_index as int, matched_line_count as int, block),
{
    let scoped_lines = scope.lines();
    let (block_start, block_end) = if block {
        BlockParser::parse_block(scope, start_index)?
    } else {
        (start_index, scoped_lines.len() - 1)
    };
    let _n = scoped_lines.len();
    assert(block_start <= block_end < scoped_lines@.len());
    let effective = if block { block_end - block_start + 1 } else { matched_line_count };
    Ok(cut_block(scoped_lines, block_start, block_end, effective))
}

/// The single match, or a report of none or of several.
fn expect_single_match(
    scope: &SearchScope,
    cand: Vec<usize>,
    location: &LocationContent,
    block: bool,
) -> (res: Result<ContentBlock, MatchError>)
    requires
        location.lines@.len() > 0,
        ints(cand@) == candidates(scope.spec_lines(), location.lines@),
    ensures
        located(res, scope.spec_lines(), location.lines@, block),
{
    let ghost c = candidates(scope.spec_lines(), location.lines@);
    proof { lemma_candidates_bounded(scope.spec_lines(), location.lines@, scope.spec_lines().len() as int); }
    let n = cand.len();
    if n == 0 {
        return Err(MatchError::NoMatch { location_content: format_location_for_error(location) });
    }
    if n == 1 {
        assert(c[0] == cand@[0] as int);
        return build_content_block(scope, cand[0], location.lines.len(), block);
    }
    let scoped_lines = scope.lines();
    let mut descriptions: Vec<String> = Vec::new();
    let shown = if n > MAX_CANDIDATE_DISPLAY { MAX_CANDIDATE_DISPLAY } else { n };
    let mut k: usize = 0;
    while k < shown
        invariant
            k <= shown <= n,
            n == cand@.len(),
            shown == (if n > MAX_CANDIDATE_DISPLAY { MAX_CANDIDATE_DISPLAY } else { n }),
            scoped_lines@ == scope.spec_lines(),
            c == ints(cand@),
            c.len() >= 2,
            forall|q: int| 0 <= q < c.len() ==> 0 <= #[trigger] c[q] < scoped_lines@.len(),
            texts(descriptions@) == Seq::new(k as nat, |q: int| candidate_line(scoped_lines@[c[q]])),
        decreases shown - k,
    {
        assert(c[k as int] == cand@[k as int] as int);
        let d = describe_candidate(&scoped_lines[cand[k]]);
        let ghost before = texts(descriptions@);
        descriptions.push(d);
        assert(texts(descriptions@) =~= before.push(d@));
        assert(texts(descriptions@) =~= Seq::new((k + 1) as nat, |q: int| candidate_line(scoped_lines@[c[q]])));
        k = k + 1;
    }
    if n > MAX_CANDIDATE_DISPLAY {
        let mut more = String::new();
        push_text(&mut more, "  (");
        push_decimal(&mut more, n - MAX_CANDIDATE_DISPLAY);
        push_text(&mut more, " more)");
        let ghost before = texts(descriptions@);
        descriptions.push(more);
        assert(texts(descriptions@) =~= before.push(more@));
    }
    proof {
        assert(texts(descriptions@) =~= candidate_report(scoped_lines@, c));
    }
    Err(MatchError::TooManyMatches {
        count: n,
        candidates: descriptions,
        location_content: format_location_for_error(location),
    })
}

proof fn lemma_candidates_bounded(lines: Seq<Line>, loc: Seq<LocationLine>, n: int)
    requires
        n <= lines.len(),
    ensures
        forall|q: int| 0 <= q < match_starts(lines, loc, n).len()
            ==> 0 <= #[trigger] match_starts(lines, loc, n)[q] < n,
    decreases n,
{
    if n > 0 {
        lemma_candidates_bounded(lines, loc, n - 1);
        let prev = match_starts(lines, loc, n - 1);
        if starts_here(lines, loc, n - 1) {
            assert forall|q: int| 0 <= q < match_starts(lines, loc, n).len()
                implies 0 <= #[trigger] match_starts(lines, loc, n)[q] < n by {
                if q < prev.len() {
                    assert(match_starts(lines, loc, n)[q] == prev[q]);
                }
            }
        }
    }
}

/// Location matcher.
pub struct LocationMatcher;

impl LocationMatcher {
    /// Finds the unique place where `location` matches within `scope`.
    ///
    /// An empty location yields the whole scope. Otherwise the candidate
    /// starts are the lines whose stripped content equals that of the first
    /// location line and from which every row agrees (see `rows_agree`);
    /// exactly one must exist. The block then reaches to the end of the
    /// scope, or, with `block`, over the code block the line opens.
    pub fn find_unique_block(
        scope: &SearchScope,
        location: &LocationContent,
        block: bool,
    ) -> (res: Result<ContentBlock, MatchError>)
        ensures
            location.lines@.len() == 0 ==> (res matches Ok(b) && is_whole_scope(b, scope.spec_lines())),
            location.lines@.len() > 0 ==> located(res, scope.spec_lines(), location.lines@, block),
    {
        if location.lines.len() == 0 {
            let scoped_lines = scope.lines();
            let n = scoped_lines.len();
            let start_line = if n > 0 { scoped_lines[0].line_num } else { LineNumber(1) };
            let end_line = if n > 0 { scoped_lines[n - 1].line_num } else { LineNumber(1) };
            let lines = copy_lines(scoped_lines, 0, n);
            assert(lines@ =~= scoped_lines@);
            return Ok(ContentBlock { start_line, end_line, lines, match_info: MatchInfo::Empty });
        }
        let first = collect_first_line_matches(scope, location);
        let filtered = filter_by_full_match(scope, first, location);
        proof {
            lemma_filter_first_matches(scope.spec_lines(), location.lines@, scope.spec_lines().len() as int);
        }
        expect_single_match(scope, filtered, location, block)
    }

    /// Cuts the lines `range.start..=range.end` (1-based, relative to the
    /// scope, the end clamped to the scope) out of the scope, skipping the
    /// matcher. With `block`, the code block that the first line opens is
    /// taken instead. A block cut for `Delete` records no located lines.
    pub fn find_by_line_range(
        scope: &SearchScope,
        line_range: LineRange,
        block: bool,
        is_delete: bool,
    ) -> (res: Result<ContentBlock, MatchError>)
        ensures
            ranged(res, scope.spec_lines(), line_range, block, is_delete),
    {
        let scoped_lines = scope.lines();
        let n = scoped_lines.len();
        let start_index = line_range.start.saturating_sub(1);
        let last = line_range.end.saturating_sub(1);
        let cap = n.saturating_sub(1);
        let end_index = if last < cap { last } else { cap };
        if start_index >= n {
            let mut msg = String::new();
            push_text(&mut msg, "行号 ");
            push_decimal(&mut msg, line_range.start);
            push_text(&mut msg, " 超出范围（共 ");
            push_decimal(&mut msg, n);
            push_text(&mut msg, " 行）");
            return Err(MatchError::NoMatch { location_content: msg });
        }
        if end_index < start_index {
            let mut msg = String::new();
            push_text(&mut msg, "无效的行号范围: @");
            push_decimal(&mut msg, line_range.start);
            push_text(&mut msg, ",");
            push_decimal(&mut msg, line_range.end);
            return Err(MatchError::NoMatch { location_content: msg });
        }
        let (block_start, block_end) = if block {
            BlockParser::parse_block(scope, start_index)?
        } else {
            (start_index, end_index)
        };
        let matched = if is_delete {
            0
        } else if block {
            block_end - block_start + 1
        } else {
            end_index - start_index + 1
        };
        Ok(cut_block(scoped_lines, block_start, block_end, matched))
    }
}

} // verus!
