//! Reading `.ned` scripts: the lexer splits a script into tokens (each
//! `//!@Name: argument` line, with the content lines that follow it, as
//! the command it names with its path, modifiers, position or target; and
//! each `...` separator); the parser checks the tokens against the
//! script's rules and turns them into `Command`s.
//!
//! The script format:
//! - a line that starts with `//!@` starts a command; the command name runs
//!   up to the first `:`, the argument is the rest of the line; names are
//!   compared without regard to ASCII case;
//! - a line that is exactly `...` ends the content of the current command;
//! - any other line is a content line of the current command; lines before
//!   the first command or after a separator belong to no command.
use crate::command::{Command, NewPosition, OffTarget};
use crate::error::ParseError;
use crate::model::{
    DeleteContent, DeleteLine, LineNumber, LineRange, LocationContent, LocationLine, NewContent, NewLine,
    sat_sub,
};
use crate::text::{
    chars_of, count_spaces, is_whitespace, is_ws, leading_spaces, lemma_leading_spaces_bound, push_char,
    split_lines, text_lines, texts_of,
};
use vstd::prelude::*;

verus! {

// ------------------------------------------------------------------
// Lines of a script
// ------------------------------------------------------------------

/// The marker that starts a command line.
pub open spec fn marker() -> Seq<char> {
    seq!['/', '/', '!', '@']
}

/// A command line starts with the marker.
pub open spec fn is_command_line(l: Seq<char>) -> bool {
    l.len() >= 4 && l.take(4) == marker()
}

/// A separator line is exactly `...`.
pub open spec fn is_separator_line(l: Seq<char>) -> bool {
    l == seq!['.', '.', '.']
}

/// Position of the first `:` in `s`, or its length.
pub open spec fn colon_at(s: Seq<char>) -> int
    decreases s.len(),
{
    if s.len() == 0 {
        0
    } else if s[0] == ':' {
        0
    } else {
        1 + colon_at(s.drop_first())
    }
}

/// The command name of a command line: after the marker, up to the first
/// `:`.
pub open spec fn command_name(l: Seq<char>) -> Seq<char> {
    let h = l.skip(4);
    h.take(colon_at(h))
}

/// The argument of a command line: what follows the first `:`.
pub open spec fn command_argument(l: Seq<char>) -> Seq<char> {
    let h = l.skip(4);
    if colon_at(h) < h.len() {
        h.skip(colon_at(h) + 1)
    } else {
        Seq::empty()
    }
}

proof fn lemma_colon_at_bounds(s: Seq<char>)
    ensures
        0 <= colon_at(s) <= s.len(),
        colon_at(s) < s.len() ==> s[colon_at(s)] == ':',
        forall|j: int| 0 <= j < colon_at(s) ==> s[j] != ':',
    decreases s.len(),
{
    if s.len() > 0 && s[0] != ':' {
        lemma_colon_at_bounds(s.drop_first());
        assert forall|j: int| 0 <= j < colon_at(s) implies s[j] != ':' by {
            if j > 0 {
                assert(s[j] == s.drop_first()[j - 1]);
            }
        }
    }
}

// ------------------------------------------------------------------
// Tokens
// ------------------------------------------------------------------

/// A command line of a script with the content lines that follow it, or
/// a `...` separator line.
enum LineGroup {
    /// a command line and the content lines that follow it
    Command { name: String, argument: String, lines: Vec<String>, line: LineNumber },
    /// a `...` line
    Separator { line: LineNumber },
}

/// What a group of script lines holds, as specifications see it: the
/// command name and argument as written, and the content lines.
pub struct GroupView {
    pub is_command: bool,
    pub name: Seq<char>,
    pub argument: Seq<char>,
    pub lines: Seq<Seq<char>>,
    pub line: usize,
}

impl View for LineGroup {
    type V = GroupView;

    closed spec fn view(&self) -> GroupView {
        match self {
            LineGroup::Command { name, argument, lines, line } => GroupView {
                is_command: true,
                name: name@,
                argument: argument@,
                lines: texts_of(lines@),
                line: line.0,
            },
            LineGroup::Separator { line } => GroupView {
                is_command: false,
                name: Seq::empty(),
                argument: Seq::empty(),
                lines: Seq::empty(),
                line: line.0,
            },
        }
    }
}

/// The views of a list of groups.
spec fn group_views(gs: Seq<LineGroup>) -> Seq<GroupView> {
    Seq::new(gs.len(), |i: int| gs[i]@)
}

/// The groups of the script lines `lines` (line `i` has number `i + 1`).
pub open spec fn lexed(lines: Seq<Seq<char>>) -> Seq<GroupView>
    decreases lines.len(),
{
    if lines.len() == 0 {
        Seq::empty()
    } else {
        let prev = lexed(lines.drop_last());
        let l = lines.last();
        let n = lines.len() as usize;
        if is_command_line(l) {
            prev.push(
                GroupView {
                    is_command: true,
                    name: command_name(l),
                    argument: command_argument(l),
                    lines: Seq::empty(),
                    line: n,
                },
            )
        } else if is_separator_line(l) {
            prev.push(
                GroupView { is_command: false, name: Seq::empty(), argument: Seq::empty(), lines: Seq::empty(), line: n },
            )
        } else if prev.len() > 0 && prev.last().is_command {
            prev.update(prev.len() - 1, GroupView { lines: prev.last().lines.push(l), ..prev.last() })
        } else {
            prev
        }
    }
}

/// Whether the line starts a command.
fn command_line(cs: &Vec<char>) -> (res: bool)
    ensures
        res == is_command_line(cs@),
{
    if cs.len() < 4 {
        return false;
    }
    let res = cs[0] == '/' && cs[1] == '/' && cs[2] == '!' && cs[3] == '@';
    proof {
        if res {
            assert(cs@.take(4) =~= marker());
        } else {
            assert(cs@.take(4)[0] == cs@[0] && cs@.take(4)[1] == cs@[1]);
            assert(cs@.take(4)[2] == cs@[2] && cs@.take(4)[3] == cs@[3]);
        }
    }
    res
}

/// Whether the line is a separator.
fn separator_line(cs: &Vec<char>) -> (res: bool)
    ensures
        res == is_separator_line(cs@),
{
    let res = cs.len() == 3 && cs[0] == '.' && cs[1] == '.' && cs[2] == '.';
    proof {
        if res {
            assert(cs@ =~= seq!['.', '.', '.']);
        } else if cs@.len() == 3 {
            assert(seq!['.', '.', '.'][0] == '.');
        }
    }
    res
}

/// The characters `cs[from..to]` as a string.
fn string_of(cs: &Vec<char>, from: usize, to: usize) -> (res: String)
    requires
        from <= to <= cs@.len(),
    ensures
        res@ == cs@.subrange(from as int, to as int),
{
    let mut out = String::new();
    let mut i = from;
    while i < to
        invariant
            from <= i <= to <= cs@.len(),
            out@ == cs@.subrange(from as int, i as int),
        decreases to - i,
    {
        push_char(&mut out, cs[i]);
        assert(out@ =~= cs@.subrange(from as int, i + 1));
        i = i + 1;
    }
    out
}

/// The name and argument of a command line.
fn split_header(cs: &Vec<char>) -> (res: (String, String))
    requires
        is_command_line(cs@),
    ensures
        res.0@ == command_name(cs@),
        res.1@ == command_argument(cs@),
{
    let ghost h = cs@.skip(4);
    proof { lemma_colon_at_bounds(h); }
    let mut k: usize = 4;
    while k < cs.len() && cs[k] != ':'
        invariant
            4 <= k <= cs@.len(),
            h == cs@.skip(4),
            forall|j: int| 4 <= j < k ==> cs@[j] != ':',
            0 <= colon_at(h) <= h.len(),
            colon_at(h) < h.len() ==> h[colon_at(h)] == ':',
            forall|j: int| 0 <= j < colon_at(h) ==> h[j] != ':',
        decreases cs@.len() - k,
    {
        k = k + 1;
    }
    proof {
        if colon_at(h) < k - 4 {
            assert(h[colon_at(h)] == cs@[colon_at(h) + 4]);
        }
        if k < cs@.len() && k - 4 < colon_at(h) {
            assert(h[k - 4] == cs@[k as int]);
        }
        assert(colon_at(h) == k - 4);
    }
    let name = string_of(cs, 4, k);
    assert(name@ =~= h.take(colon_at(h)));
    let argument = if k < cs.len() {
        let a = string_of(cs, k + 1, cs.len());
        assert(a@ =~= h.skip(colon_at(h) + 1));
        a
    } else {
        String::new()
    };
    (name, argument)
}

/// Splits a script into groups: each command line with the content
/// lines after it, and each `...` separator.
fn group_lines(script: &str) -> (res: Vec<LineGroup>)
    ensures
        group_views(res@) == lexed(text_lines(script@)),
{
    let lines = split_lines(script);
    let ghost all = text_lines(script@);
    let mut tokens: Vec<LineGroup> = Vec::new();
    let mut i: usize = 0;
    assert(all.take(0) =~= Seq::<Seq<char>>::empty());
    while i < lines.len()
        invariant
            i <= lines@.len(),
            texts_of(lines@) == all,
            group_views(tokens@) == lexed(all.take(i as int)),
        decreases lines@.len() - i,
    {
        let ghost prev = group_views(tokens@);
        assert(all.take(i + 1).drop_last() =~= all.take(i as int));
        assert(all.take(i + 1).last() == lines@[i as int]@);
        let cs = chars_of(lines[i].as_str());
        let number = LineNumber::new(i + 1);
        if command_line(&cs) {
            let (name, argument) = split_header(&cs);
            let body: Vec<String> = Vec::new();
            assert(texts_of(body@) =~= Seq::<Seq<char>>::empty());
            tokens.push(LineGroup::Command { name, argument, lines: body, line: number });
            assert(group_views(tokens@) =~= lexed(all.take(i + 1)));
        } else if separator_line(&cs) {
            tokens.push(LineGroup::Separator { line: number });
            assert(group_views(tokens@) =~= lexed(all.take(i + 1)));
        } else if tokens.len() > 0 {
            let last = tokens.pop().unwrap();
            match last {
                LineGroup::Command { name, argument, lines: body, line } => {
                    let mut body = body;
                    let ghost before = texts_of(body@);
                    body.push(lines[i].clone());
                    assert(texts_of(body@) =~= before.push(lines@[i as int]@));
                    tokens.push(LineGroup::Command { name, argument, lines: body, line });
                    assert(group_views(tokens@) =~= lexed(all.take(i + 1)));
                },
                LineGroup::Separator { line } => {
                    tokens.push(LineGroup::Separator { line });
                    assert(group_views(tokens@) =~= lexed(all.take(i + 1)));
                },
            }
        } else {
            assert(group_views(tokens@) =~= lexed(all.take(i + 1)));
        }
        i = i + 1;
    }
    assert(all.take(lines@.len() as int) =~= all);
    tokens
}

// ------------------------------------------------------------------
// Words and numbers
// ------------------------------------------------------------------

/// Number of whitespace characters that open `s`.
pub open spec fn lead_ws(s: Seq<char>) -> int
    decreases s.len(),
{
    if s.len() > 0 && is_ws(s[0]) {
        1 + lead_ws(s.drop_first())
    } else {
        0
    }
}

/// Number of whitespace characters that close `s`.
pub open spec fn trail_ws(s: Seq<char>) -> int
    decreases s.len(),
{
    if s.len() > 0 && is_ws(s.last()) {
        1 + trail_ws(s.drop_last())
    } else {
        0
    }
}

/// `s` without whitespace at either end (`str::trim`).
pub open spec fn trim_ws(s: Seq<char>) -> Seq<char> {
    let t = s.skip(lead_ws(s));
    t.take(t.len() - trail_ws(t))
}

proof fn lemma_lead_ws(s: Seq<char>, i: int)
    requires
        0 <= i <= s.len(),
        forall|j: int| 0 <= j < i ==> is_ws(#[trigger] s[j]),
        i == s.len() || !is_ws(s[i]),
    ensures
        lead_ws(s) == i,
    decreases i,
{
    if i > 0 {
        assert forall|j: int| 0 <= j < i - 1 implies is_ws(#[trigger] s.drop_first()[j]) by {
            assert(s.drop_first()[j] == s[j + 1]);
        }
        if i < s.len() {
            assert(s.drop_first()[i - 1] == s[i]);
        }
        lemma_lead_ws(s.drop_first(), i - 1);
    }
}

proof fn lemma_trail_ws(s: Seq<char>, k: int)
    requires
        0 <= k <= s.len(),
        forall|j: int| s.len() - k <= j < s.len() ==> is_ws(#[trigger] s[j]),
        k == s.len() || !is_ws(s[s.len() - k - 1]),
    ensures
        trail_ws(s) == k,
    decreases k,
{
    if k > 0 {
        let d = s.drop_last();
        assert forall|j: int| d.len() - (k - 1) <= j < d.len() implies is_ws(#[trigger] d[j]) by {
            assert(d[j] == s[j]);
        }
        if k < s.len() {
            assert(d[d.len() - (k - 1) - 1] == s[s.len() - k - 1]);
        }
        lemma_trail_ws(d, k - 1);
    }
}

/// The characters without whitespace at either end.
fn trimmed(cs: &Vec<char>) -> (res: Vec<char>)
    ensures
        res@ == trim_ws(cs@),
{
    let n = cs.len();
    let mut i: usize = 0;
    while i < n && is_whitespace(cs[i])
        invariant
            i <= n == cs@.len(),
            forall|j: int| 0 <= j < i ==> is_ws(#[trigger] cs@[j]),
        decreases n - i,
    {
        i = i + 1;
    }
    proof { lemma_lead_ws(cs@, i as int); }
    let ghost t = cs@.skip(i as int);
    let mut k: usize = 0;
    while k < n - i && is_whitespace(cs[n - 1 - k])
        invariant
            i <= n == cs@.len(),
            t == cs@.skip(i as int),
            k <= n - i,
            forall|j: int| t.len() - k <= j < t.len() ==> is_ws(#[trigger] t[j]),
        decreases n - i - k,
    {
        assert(t[t.len() - k - 1] == cs@[n - 1 - k]);
        k = k + 1;
    }
    proof {
        if k < n - i {
            assert(t[t.len() - k - 1] == cs@[n - 1 - k]);
        }
        lemma_trail_ws(t, k as int);
    }
    let mut out: Vec<char> = Vec::new();
    let mut j = i;
    while j < n - k
        invariant
            i <= j <= n - k,
            k <= n - i,
            n == cs@.len(),
            out@ == cs@.subrange(i as int, j as int),
        decreases n - k - j,
    {
        out.push(cs[j]);
        assert(out@ =~= cs@.subrange(i as int, j + 1));
        j = j + 1;
    }
    assert(out@ =~= t.take(t.len() - k));
    out
}

/// The case of an ASCII letter does not count.
pub open spec fn fold_case(c: char) -> int {
    if 'A' <= c && c <= 'Z' { (c as u32) + 32 } else { c as u32 as int }
}

/// `a` is the word `w`, whatever the ASCII case.
pub open spec fn same_word(a: Seq<char>, w: Seq<char>) -> bool {
    &&& a.len() == w.len()
    &&& forall|i: int| 0 <= i < a.len() ==> fold_case(#[trigger] a[i]) == fold_case(w[i])
}

fn folded(c: char) -> (res: u32)
    ensures
        res == fold_case(c),
{
    if 'A' <= c && c <= 'Z' {
        (c as u32) + 32
    } else {
        c as u32
    }
}

/// Whether `cs[from..]` starts with the word `w`, whatever the ASCII case.
fn word_at(cs: &Vec<char>, from: usize, w: &[char]) -> (res: bool)
    requires
        from <= cs@.len(),
    ensures
        res == (cs@.len() - from >= w@.len() && same_word(cs@.subrange(from as int, from + w@.len()), w@)),
{
    if cs.len() - from < w.len() {
        return false;
    }
    let ghost a = cs@.subrange(from as int, from + w@.len());
    let n = cs.len();
    let mut i: usize = 0;
    while i < w.len()
        invariant
            n == cs@.len(),
            i <= w@.len(),
            from + w@.len() <= cs@.len(),
            a == cs@.subrange(from as int, from + w@.len()),
            forall|j: int| 0 <= j < i ==> fold_case(#[trigger] a[j]) == fold_case(w@[j]),
        decreases w@.len() - i,
    {
        assert(a[i as int] == cs@[from + i]);
        if folded(cs[from + i]) != folded(w[i]) {
            return false;
        }
        i = i + 1;
    }
    true
}

/// `cs` is the word `w`, whatever the ASCII case.
fn word_is(cs: &Vec<char>, w: &[char]) -> (res: bool)
    ensures
        res == same_word(cs@, w@),
{
    if cs.len() != w.len() {
        return false;
    }
    let r = word_at(cs, 0, w);
    assert(cs@.subrange(0, w@.len() as int) =~= cs@);
    r
}

/// A non-empty run of decimal digits.
pub open spec fn is_digits(s: Seq<char>) -> bool {
    &&& s.len() > 0
    &&& forall|i: int| 0 <= i < s.len() ==> '0' <= #[trigger] s[i] && s[i] <= '9'
}

/// The value of decimal digits.
pub open spec fn digits_value(s: Seq<char>) -> nat
    decreases s.len(),
{
    if s.len() == 0 {
        0
    } else {
        digits_value(s.drop_last()) * 10 + ((s.last() as u32) - ('0' as u32)) as nat
    }
}

/// A line number written in decimal, if it fits in a `usize`.
pub open spec fn number_of(s: Seq<char>) -> Option<usize> {
    if is_digits(s) && digits_value(s) <= usize::MAX {
        Some(digits_value(s) as usize)
    } else {
        None
    }
}

proof fn lemma_digits_grow(s: Seq<char>, k: int)
    requires
        0 <= k <= s.len(),
        forall|i: int| 0 <= i < s.len() ==> '0' <= #[trigger] s[i] && s[i] <= '9',
    ensures
        digits_value(s.take(k)) <= digits_value(s),
    decreases s.len() - k,
{
    if k < s.len() {
        lemma_digits_grow(s.drop_last(), k);
        assert(s.drop_last().take(k) =~= s.take(k));
        assert(digits_value(s) >= digits_value(s.drop_last())) by (nonlinear_arith)
            requires
                digits_value(s) == digits_value(s.drop_last()) * 10 + ((s.last() as u32) - ('0' as u32)) as nat,
        ;
    } else {
        assert(s.take(k) =~= s);
    }
}

/// The number that `cs[from..to]` writes, if it is one and fits.
fn parse_number(cs: &Vec<char>, from: usize, to: usize) -> (res: Option<usize>)
    requires
        from <= to <= cs@.len(),
    ensures
        res == number_of(cs@.subrange(from as int, to as int)),
{
    let ghost s = cs@.subrange(from as int, to as int);
    if from == to {
        return None;
    }
    let mut v: usize = 0;
    let mut i = from;
    assert(s.take(0) =~= Seq::<char>::empty());
    while i < to
        invariant
            from <= i <= to <= cs@.len(),
            s == cs@.subrange(from as int, to as int),
            forall|j: int| 0 <= j < i - from ==> '0' <= #[trigger] s[j] && s[j] <= '9',
            v == digits_value(s.take(i - from)),
        decreases to - i,
    {
        let c = cs[i];
        assert(s[i - from] == c);
        if !('0' <= c && c <= '9') {
            return None;
        }
        let d = (c as u32 - '0' as u32) as usize;
        assert(s.take(i + 1 - from).drop_last() =~= s.take(i - from));
        if v > (usize::MAX - d) / 10 {
            proof {
                assert(v * 10 + d > usize::MAX) by (nonlinear_arith)
                    requires
                        v > (usize::MAX - d) / 10,
                        d <= 9,
                ;
                assert(digits_value(s.take(i + 1 - from)) > usize::MAX);
                if is_digits(s) {
                    lemma_digits_grow(s, i + 1 - from);
                }
            }
            return None;
        }
        assert(v * 10 + d <= usize::MAX) by (nonlinear_arith)
            requires
                v <= (usize::MAX - d) / 10,
                d <= 9,
        ;
        v = v * 10 + d;
        i = i + 1;
    }
    assert(s.take(to - from) =~= s);
    Some(v)
}

/// Position of the first `c` in `s`, or its length.
pub open spec fn index_of(s: Seq<char>, c: char) -> int
    decreases s.len(),
{
    if s.len() == 0 {
        0
    } else if s[0] == c {
        0
    } else {
        1 + index_of(s.drop_first(), c)
    }
}

proof fn lemma_index_of_bounds(s: Seq<char>, c: char)
    ensures
        0 <= index_of(s, c) <= s.len(),
        index_of(s, c) < s.len() ==> s[index_of(s, c)] == c,
        forall|j: int| 0 <= j < index_of(s, c) ==> s[j] != c,
    decreases s.len(),
{
    if s.len() > 0 && s[0] != c {
        lemma_index_of_bounds(s.drop_first(), c);
        assert forall|j: int| 0 <= j < index_of(s, c) implies s[j] != c by {
            if j > 0 {
                assert(s[j] == s.drop_first()[j - 1]);
            }
        }
    }
}

/// Position (at or after `from`) of the first `c` in `cs[from..]`, or the
/// length.
fn find_char(cs: &Vec<char>, from: usize, c: char) -> (res: usize)
    requires
        from <= cs@.len(),
    ensures
        res == from + index_of(cs@.skip(from as int), c),
{
    let ghost h = cs@.skip(from as int);
    proof { lemma_index_of_bounds(h, c); }
    let mut k = from;
    while k < cs.len() && cs[k] != c
        invariant
            from <= k <= cs@.len(),
            h == cs@.skip(from as int),
            forall|j: int| from <= j < k ==> cs@[j] != c,
        decreases cs@.len() - k,
    {
        k = k + 1;
    }
    proof {
        if index_of(h, c) < k - from {
            assert(h[index_of(h, c)] == cs@[index_of(h, c) + from]);
        }
        if k < cs@.len() && k - from < index_of(h, c) {
            assert(h[k - from] == cs@[k as int]);
        }
    }
    k
}

/// The line range `a` or `a,b` (1-based, `a <= b`) that the text writes.
pub open spec fn range_of(s: Seq<char>) -> Option<LineRange> {
    let p = index_of(s, ',');
    let a = number_of(s.take(p));
    let b = if p < s.len() { number_of(s.skip(p + 1)) } else { a };
    match (a, b) {
        (Some(x), Some(y)) => if x >= 1 && y >= x { Some(LineRange { start: x, end: y }) } else { None },
        _ => None,
    }
}

/// The line range that `cs[from..]` writes.
fn parse_range(cs: &Vec<char>, from: usize) -> (res: Option<LineRange>)
    requires
        from <= cs@.len(),
    ensures
        res == range_of(cs@.skip(from as int)),
{
    let ghost s = cs@.skip(from as int);
    proof { lemma_index_of_bounds(s, ','); }
    let p = find_char(cs, from, ',');
    let a = parse_number(cs, from, p);
    assert(cs@.subrange(from as int, p as int) =~= s.take(p - from));
    let b = if p < cs.len() {
        let r = parse_number(cs, p + 1, cs.len());
        assert(cs@.subrange(p + 1, cs@.len() as int) =~= s.skip(p - from + 1));
        r
    } else {
        a
    };
    match (a, b) {
        (Some(x), Some(y)) => if x >= 1 && y >= x {
            Some(LineRange { start: x, end: y })
        } else {
            None
        },
        _ => None,
    }
}

/// `block`, whatever the ASCII case.
pub open spec fn block_word() -> Seq<char> {
    seq!['b', 'l', 'o', 'c', 'k']
}

/// The modifiers of a `Location` or `Delete` argument: an optional
/// `Block` and an optional `@start,end` line range; `None` when the
/// argument is anything else.
pub open spec fn modifiers(arg: Seq<char>) -> Option<(bool, Option<LineRange>)> {
    let a = trim_ws(arg);
    let block = a.len() >= 5 && same_word(a.take(5), block_word()) && (a.len() == 5 || is_ws(a[5]));
    let rest = if block { trim_ws(a.skip(5)) } else { a };
    if rest.len() == 0 {
        Some((block, None))
    } else if rest[0] == '@' {
        match range_of(rest.skip(1)) {
            Some(r) => Some((block, Some(r))),
            None => None,
        }
    } else {
        None
    }
}

/// `cs[from..]`.
fn suffix(cs: &Vec<char>, from: usize) -> (res: Vec<char>)
    requires
        from <= cs@.len(),
    ensures
        res@ == cs@.skip(from as int),
{
    let mut out: Vec<char> = Vec::new();
    let mut i = from;
    while i < cs.len()
        invariant
            from <= i <= cs@.len(),
            out@ == cs@.subrange(from as int, i as int),
        decreases cs@.len() - i,
    {
        out.push(cs[i]);
        assert(out@ =~= cs@.subrange(from as int, i + 1));
        i = i + 1;
    }
    assert(out@ =~= cs@.skip(from as int));
    out
}

/// The modifiers of a `Location` or `Delete` argument.
fn parse_modifiers(arg: &str) -> (res: Option<(bool, Option<LineRange>)>)
    ensures
        res == modifiers(arg@),
{
    let cs = chars_of(arg);
    let a = trimmed(&cs);
    let block = a.len() >= 5 && word_at(&a, 0, &['b', 'l', 'o', 'c', 'k']) && (a.len() == 5 || is_whitespace(a[5]));
    proof {
        if a@.len() >= 5 {
            assert(a@.subrange(0, 5) =~= a@.take(5));
        }
    }
    let rest = if block {
        let tail = suffix(&a, 5);
        trimmed(&tail)
    } else {
        a
    };
    if rest.len() == 0 {
        return Some((block, None));
    }
    if rest[0] == '@' {
        match parse_range(&rest, 1) {
            Some(r) => Some((block, Some(r))),
            None => None,
        }
    } else {
        None
    }
}

// ------------------------------------------------------------------
// Commands
// ------------------------------------------------------------------

/// A `Location` line, as specifications see it.
pub struct LocationLineView {
    pub index: usize,
    pub diff_taps: Option<usize>,
    pub content: Seq<char>,
    pub line_num: Option<LineNumber>,
}

/// A `New` line, as specifications see it.
pub struct NewLineView {
    pub diff_taps: usize,
    pub content: Seq<char>,
    pub is_raw: bool,
}

/// A `Delete` line, as specifications see it.
pub struct DeleteLineView {
    pub content: Seq<char>,
    pub is_raw: bool,
}

/// A command, as specifications see it.
pub enum CommandView {
    Open { path: Seq<char> },
    Location { block: bool, line_range: Option<LineRange>, lines: Seq<LocationLineView> },
    New { position: NewPosition, lines: Seq<NewLineView> },
    Delete { block: bool, line_range: Option<LineRange>, lines: Option<Seq<DeleteLineView>> },
    Raw { content: Seq<char> },
    Off { target: OffTarget },
}

pub open spec fn location_line_view(l: LocationLine) -> LocationLineView {
    LocationLineView { index: l.index, diff_taps: l.diff_taps, content: l.content@, line_num: l.line_num }
}

pub open spec fn new_line_view(l: NewLine) -> NewLineView {
    NewLineView { diff_taps: l.diff_taps, content: l.content@, is_raw: l.is_raw }
}

pub open spec fn delete_line_view(l: DeleteLine) -> DeleteLineView {
    DeleteLineView { content: l.content@, is_raw: l.is_raw }
}

/// A command as specifications see it.
pub open spec fn command_view(c: Command) -> CommandView {
    match c {
        Command::Open { file_path } => CommandView::Open { path: file_path@ },
        Command::Location { block, line_range, content } => CommandView::Location {
            block,
            line_range,
            lines: Seq::new(content.lines@.len(), |i: int| location_line_view(content.lines@[i])),
        },
        Command::New { position, content } => CommandView::New {
            position,
            lines: Seq::new(content.lines@.len(), |i: int| new_line_view(content.lines@[i])),
        },
        Command::Delete { block, line_range, content } => CommandView::Delete {
            block,
            line_range,
            lines: match content {
                Some(d) => Some(Seq::new(d.lines@.len(), |i: int| delete_line_view(d.lines@[i]))),
                None => None,
            },
        },
        Command::Raw { content } => CommandView::Raw { content: content@ },
        Command::Off { target } => CommandView::Off { target },
    }
}

/// The views of a list of commands.
pub open spec fn command_views(cs: Seq<Command>) -> Seq<CommandView> {
    Seq::new(cs.len(), |i: int| command_view(cs[i]))
}

/// The lines of a `Location`: indentation relative to the first line.
pub open spec fn location_views(lines: Seq<Seq<char>>) -> Seq<LocationLineView> {
    Seq::new(
        lines.len(),
        |i: int| LocationLineView {
            index: i as usize,
            diff_taps: Some(sat_sub(leading_spaces(lines[i]) as int, leading_spaces(lines[0]) as int)),
            content: lines[i],
            line_num: None,
        },
    )
}

/// The lines of a `New`: each with its own indentation taken off.
pub open spec fn new_views(lines: Seq<Seq<char>>) -> Seq<NewLineView> {
    Seq::new(
        lines.len(),
        |i: int| NewLineView {
            diff_taps: leading_spaces(lines[i]) as usize,
            content: lines[i].skip(leading_spaces(lines[i]) as int),
            is_raw: false,
        },
    )
}

/// The lines of a `Delete`, verbatim.
pub open spec fn delete_views(lines: Seq<Seq<char>>) -> Seq<DeleteLineView> {
    Seq::new(lines.len(), |i: int| DeleteLineView { content: lines[i], is_raw: false })
}

/// The text of a `Raw` line: its argument without the space after `:`.
pub open spec fn raw_text(arg: Seq<char>) -> Seq<char> {
    if arg.len() > 0 && arg[0] == ' ' { arg.drop_first() } else { arg }
}

/// A `New` or `Delete` with a `Raw` line and the lines after it added.
pub open spec fn with_raw(c: CommandView, raw: Seq<char>, more: Seq<Seq<char>>) -> CommandView {
    match c {
        CommandView::New { position, lines } => CommandView::New {
            position,
            lines: lines.push(NewLineView { diff_taps: 0, content: raw, is_raw: true }) + new_views(more),
        },
        CommandView::Delete { block, line_range, lines } => CommandView::Delete {
            block,
            line_range,
            lines: Some(
                match lines {
                    Some(l) => l,
                    None => Seq::empty(),
                }.push(DeleteLineView { content: raw, is_raw: true }) + delete_views(more),
            ),
        },
        _ => c,
    }
}

// ------------------------------------------------------------------
// Parsing
// ------------------------------------------------------------------

pub open spec fn open_word() -> Seq<char> {
    seq!['o', 'p', 'e', 'n']
}

pub open spec fn location_word() -> Seq<char> {
    seq!['l', 'o', 'c', 'a', 't', 'i', 'o', 'n']
}

pub open spec fn new_word() -> Seq<char> {
    seq!['n', 'e', 'w']
}

pub open spec fn delete_word() -> Seq<char> {
    seq!['d', 'e', 'l', 'e', 't', 'e']
}

pub open spec fn raw_word() -> Seq<char> {
    seq!['r', 'a', 'w']
}

pub open spec fn off_word() -> Seq<char> {
    seq!['o', 'f', 'f']
}

pub open spec fn start_word() -> Seq<char> {
    seq!['s', 't', 'a', 'r', 't']
}

pub open spec fn end_word() -> Seq<char> {
    seq!['e', 'n', 'd']
}

/// A parse error, as specifications see it.
pub enum ParseFailure {
    MissingFilePath,
    UnknownCommand { token: Seq<char>, line: usize },
    MissingLocation { command: Seq<char>, line: usize },
    UnexpectedSeparator { line: usize },
    BlockRequiredForDelete { line: usize },
}

pub open spec fn failure_of(e: ParseError) -> ParseFailure {
    match e {
        ParseError::MissingFilePath => ParseFailure::MissingFilePath,
        ParseError::UnknownCommand { token, line } => ParseFailure::UnknownCommand { token: token@, line: line.0 },
        ParseError::MissingLocation { command, line } => ParseFailure::MissingLocation { command: command@, line: line.0 },
        ParseError::UnexpectedSeparator { line } => ParseFailure::UnexpectedSeparator { line: line.0 },
        ParseError::BlockRequiredForDelete { line } => ParseFailure::BlockRequiredForDelete { line: line.0 },
    }
}

/// What the parser knows after some tokens.
pub struct Progress {
    /// the commands so far
    pub commands: Seq<CommandView>,
    /// `Location`s not closed yet
    pub depth: nat,
    /// a `Location` is in force for `New` / `Delete` (no `...` since)
    pub armed: bool,
    /// the last `Location` was a `Location:Block`
    pub block_location: bool,
    /// the last token was a command with content that a `...` may end
    pub content_open: bool,
    /// the last command was a `New` or `Delete` that a `Raw` may extend
    pub raw_ok: bool,
}

pub open spec fn start_progress() -> Progress {
    Progress {
        commands: Seq::empty(),
        depth: 0,
        armed: false,
        block_location: false,
        content_open: false,
        raw_ok: false,
    }
}

/// The text of a command line after the marker, trimmed.
pub open spec fn header_of(t: GroupView) -> Seq<char> {
    trim_ws(t.name + seq![':'] + t.argument)
}

/// The position an `New` argument names.
pub open spec fn position_of(arg: Seq<char>) -> Option<NewPosition> {
    let a = trim_ws(arg);
    if a.len() == 0 {
        Some(NewPosition::Normal)
    } else if same_word(a, start_word()) {
        Some(NewPosition::Start)
    } else if same_word(a, end_word()) {
        Some(NewPosition::End)
    } else {
        None
    }
}

/// The scope an `Off` argument names.
pub open spec fn target_of(arg: Seq<char>) -> Option<OffTarget> {
    let a = trim_ws(arg);
    if same_word(a, open_word()) {
        Some(OffTarget::Open)
    } else if same_word(a, location_word()) {
        Some(OffTarget::Location)
    } else if same_word(a, new_word()) {
        Some(OffTarget::New)
    } else {
        None
    }
}

// ------------------------------------------------------------------
// Tokens
// ------------------------------------------------------------------

/// A token of a script: a command with what its header says and its
/// content lines, or a `...` separator. Each carries its line number.
#[derive(Debug)]
pub enum Token {
    /// `//!@Open: <path>`, the path trimmed
    Open { file_path: String, line: LineNumber },
    /// `//!@Location:[Block] [@start[,end]]` and the located lines
    Location { block: bool, line_range: Option<LineRange>, lines: Vec<String>, line: LineNumber },
    /// `//!@New:[Start|End]` and the new lines
    New { position: NewPosition, lines: Vec<String>, line: LineNumber },
    /// `//!@Delete:[Block] [@start[,end]]` and the lines to delete
    Delete { block: bool, line_range: Option<LineRange>, lines: Vec<String>, line: LineNumber },
    /// `//!@Raw: <text>` and the lines after it
    Raw { content: String, lines: Vec<String>, line: LineNumber },
    /// `//!@Off:<target>`, the target as written
    Off { target: String, line: LineNumber },
    /// a command line whose name or modifiers are not understood, with the
    /// text that shows it
    Unknown { text: String, line: LineNumber },
    /// a `...` line
    Separator { line: LineNumber },
}

/// A token as specifications see it.
pub enum TokenView {
    Open { path: Seq<char>, line: usize },
    Location { block: bool, line_range: Option<LineRange>, lines: Seq<Seq<char>>, line: usize },
    New { position: NewPosition, lines: Seq<Seq<char>>, line: usize },
    Delete { block: bool, line_range: Option<LineRange>, lines: Seq<Seq<char>>, line: usize },
    Raw { content: Seq<char>, lines: Seq<Seq<char>>, line: usize },
    Off { target: Seq<char>, line: usize },
    Unknown { text: Seq<char>, line: usize },
    Separator { line: usize },
}

impl View for Token {
    type V = TokenView;

    open spec fn view(&self) -> TokenView {
        match self {
            Token::Open { file_path, line } => TokenView::Open { path: file_path@, line: line.0 },
            Token::Location { block, line_range, lines, line } => TokenView::Location {
                block: *block,
                line_range: *line_range,
                lines: texts_of(lines@),
                line: line.0,
            },
            Token::New { position, lines, line } => TokenView::New { position: *position, lines: texts_of(lines@), line: line.0 },
            Token::Delete { block, line_range, lines, line } => TokenView::Delete {
                block: *block,
                line_range: *line_range,
                lines: texts_of(lines@),
                line: line.0,
            },
            Token::Raw { content, lines, line } => TokenView::Raw { content: content@, lines: texts_of(lines@), line: line.0 },
            Token::Off { target, line } => TokenView::Off { target: target@, line: line.0 },
            Token::Unknown { text, line } => TokenView::Unknown { text: text@, line: line.0 },
            Token::Separator { line } => TokenView::Separator { line: line.0 },
        }
    }
}

/// The views of a list of tokens.
pub open spec fn token_views(ts: Seq<Token>) -> Seq<TokenView> {
    Seq::new(ts.len(), |i: int| ts[i]@)
}

/// The token a group of script lines makes: the command name (trimmed,
/// ASCII case ignored) picks the kind, and the argument gives the path,
/// modifiers, position, text or target.
pub open spec fn classified(g: GroupView) -> TokenView {
    let name = trim_ws(g.name);
    if !g.is_command {
        TokenView::Separator { line: g.line }
    } else if same_word(name, open_word()) {
        TokenView::Open { path: trim_ws(g.argument), line: g.line }
    } else if same_word(name, location_word()) {
        match modifiers(g.argument) {
            None => TokenView::Unknown { text: header_of(g), line: g.line },
            Some((block, line_range)) => TokenView::Location { block, line_range, lines: g.lines, line: g.line },
        }
    } else if same_word(name, new_word()) {
        match position_of(g.argument) {
            None => TokenView::Unknown { text: header_of(g), line: g.line },
            Some(position) => TokenView::New { position, lines: g.lines, line: g.line },
        }
    } else if same_word(name, delete_word()) {
        match modifiers(g.argument) {
            None => TokenView::Unknown { text: header_of(g), line: g.line },
            Some((block, line_range)) => TokenView::Delete { block, line_range, lines: g.lines, line: g.line },
        }
    } else if same_word(name, raw_word()) {
        TokenView::Raw { content: raw_text(g.argument), lines: g.lines, line: g.line }
    } else if same_word(name, off_word()) {
        TokenView::Off { target: g.argument, line: g.line }
    } else {
        TokenView::Unknown { text: name, line: g.line }
    }
}

/// The tokens of the script lines `lines`.
pub open spec fn tokens_of(lines: Seq<Seq<char>>) -> Seq<TokenView> {
    let gs = lexed(lines);
    Seq::new(gs.len(), |i: int| classified(gs[i]))
}

/// One token more.
pub open spec fn step(p: Progress, t: TokenView) -> Result<Progress, ParseFailure> {
    match t {
        TokenView::Separator { line } => if p.content_open {
            Ok(Progress { armed: false, content_open: false, raw_ok: false, ..p })
        } else {
            Err(ParseFailure::UnexpectedSeparator { line })
        },
        TokenView::Open { path, line } => if path.len() == 0 {
            Err(ParseFailure::MissingFilePath)
        } else {
            Ok(Progress { commands: p.commands.push(CommandView::Open { path }), content_open: false, raw_ok: false, ..p })
        },
        TokenView::Location { block, line_range, lines, line } => Ok(
            Progress {
                commands: p.commands.push(CommandView::Location { block, line_range, lines: location_views(lines) }),
                depth: p.depth + 1,
                armed: true,
                block_location: block,
                content_open: true,
                raw_ok: false,
            },
        ),
        TokenView::New { position, lines, line } => if position == NewPosition::Normal && !p.armed {
            Err(ParseFailure::MissingLocation { command: "New"@, line })
        } else {
            Ok(
                Progress {
                    commands: p.commands.push(CommandView::New { position, lines: new_views(lines) }),
                    content_open: true,
                    raw_ok: true,
                    ..p
                },
            )
        },
        TokenView::Delete { block, line_range, lines, line } => if !p.armed {
            Err(ParseFailure::MissingLocation { command: "Delete"@, line })
        } else if block && !p.block_location {
            Err(ParseFailure::BlockRequiredForDelete { line })
        } else {
            Ok(
                Progress {
                    commands: p.commands.push(CommandView::Delete { block, line_range, lines: Some(delete_views(lines)) }),
                    content_open: true,
                    raw_ok: true,
                    ..p
                },
            )
        },
        TokenView::Raw { content, lines, line } => if !p.raw_ok || p.commands.len() == 0 {
            Err(ParseFailure::UnknownCommand { token: trim_ws("Raw: "@ + content), line })
        } else {
            let last = p.commands.len() - 1;
            Ok(
                Progress {
                    commands: p.commands.update(last, with_raw(p.commands[last], content, lines)),
                    content_open: true,
                    ..p
                },
            )
        },
        TokenView::Off { target: arg, line } => match target_of(arg) {
            None => Err(ParseFailure::UnknownCommand { token: trim_ws("Off:"@ + arg), line }),
            Some(target) => {
                let depth: nat = if target == OffTarget::Open {
                    0
                } else if p.depth > 0 {
                    (p.depth - 1) as nat
                } else {
                    0
                };
                Ok(
                    Progress {
                        commands: p.commands.push(CommandView::Off { target }),
                        depth,
                        armed: p.armed && depth > 0,
                        content_open: false,
                        raw_ok: false,
                        ..p
                    },
                )
            },
        },
        TokenView::Unknown { text, line } => Err(ParseFailure::UnknownCommand { token: text, line }),
    }
}

/// The outcome of parsing the tokens in order.
pub open spec fn parsed(ts: Seq<TokenView>) -> Result<Progress, ParseFailure>
    decreases ts.len(),
{
    if ts.len() == 0 {
        Ok(start_progress())
    } else {
        match parsed(ts.drop_last()) {
            Ok(p) => step(p, ts.last()),
            Err(e) => Err(e),
        }
    }
}

/// The lines of a `Location` (indentation relative to the first line).
fn location_lines(lines: &Vec<String>) -> (res: Vec<LocationLine>)
    ensures
        Seq::new(res@.len(), |i: int| location_line_view(res@[i])) == location_views(texts_of(lines@)),
{
    let ghost want = location_views(texts_of(lines@));
    let mut out: Vec<LocationLine> = Vec::new();
    if lines.len() == 0 {
        assert(Seq::new(out@.len(), |i: int| location_line_view(out@[i])) =~= want);
        return out;
    }
    let base = count_spaces(lines[0].as_str());
    let mut i: usize = 0;
    while i < lines.len()
        invariant
            i <= lines@.len(),
            lines@.len() > 0,
            base == leading_spaces(lines@[0]@),
            want == location_views(texts_of(lines@)),
            out@.len() == i,
            forall|k: int| 0 <= k < i ==> location_line_view(#[trigger] out@[k]) == want[k],
        decreases lines@.len() - i,
    {
        let taps = count_spaces(lines[i].as_str());
        out.push(LocationLine { index: i, diff_taps: Some(taps.saturating_sub(base)), content: lines[i].clone(), line_num: None });
        i = i + 1;
    }
    assert(Seq::new(out@.len(), |i: int| location_line_view(out@[i])) =~= want);
    out
}

/// The lines of a `New` (each with its own indentation taken off).
fn new_lines_from(lines: &Vec<String>) -> (res: Vec<NewLine>)
    ensures
        Seq::new(res@.len(), |i: int| new_line_view(res@[i])) == new_views(texts_of(lines@)),
{
    let ghost want = new_views(texts_of(lines@));
    let mut out: Vec<NewLine> = Vec::new();
    let mut i: usize = 0;
    while i < lines.len()
        invariant
            i <= lines@.len(),
            want == new_views(texts_of(lines@)),
            out@.len() == i,
            forall|k: int| 0 <= k < i ==> new_line_view(#[trigger] out@[k]) == want[k],
        decreases lines@.len() - i,
    {
        let taps = count_spaces(lines[i].as_str());
        let cs = chars_of(lines[i].as_str());
        proof { lemma_leading_spaces_bound(cs@); }
        let body = string_of(&cs, taps, cs.len());
        assert(body@ =~= lines@[i as int]@.skip(taps as int));
        out.push(NewLine { diff_taps: taps, content: body, is_raw: false });
        i = i + 1;
    }
    assert(Seq::new(out@.len(), |i: int| new_line_view(out@[i])) =~= want);
    out
}

/// The lines of a `Delete`, verbatim.
fn delete_lines_from(lines: &Vec<String>) -> (res: Vec<DeleteLine>)
    ensures
        Seq::new(res@.len(), |i: int| delete_line_view(res@[i])) == delete_views(texts_of(lines@)),
{
    let ghost want = delete_views(texts_of(lines@));
    let mut out: Vec<DeleteLine> = Vec::new();
    let mut i: usize = 0;
    while i < lines.len()
        invariant
            i <= lines@.len(),
            want == delete_views(texts_of(lines@)),
            out@.len() == i,
            forall|k: int| 0 <= k < i ==> delete_line_view(#[trigger] out@[k]) == want[k],
        decreases lines@.len() - i,
    {
        out.push(DeleteLine { content: lines[i].clone(), is_raw: false });
        i = i + 1;
    }
    assert(Seq::new(out@.len(), |i: int| delete_line_view(out@[i])) =~= want);
    out
}

/// The characters as a string.
fn string_from(cs: &Vec<char>) -> (res: String)
    ensures
        res@ == cs@,
{
    let r = string_of(cs, 0, cs.len());
    assert(cs@.subrange(0, cs@.len() as int) =~= cs@);
    r
}

/// The position a `New` argument names.
fn parse_position(arg: &str) -> (res: Option<NewPosition>)
    ensures
        res == position_of(arg@),
{
    let a = trimmed(&chars_of(arg));
    if a.len() == 0 {
        Some(NewPosition::Normal)
    } else if word_is(&a, &['s', 't', 'a', 'r', 't']) {
        Some(NewPosition::Start)
    } else if word_is(&a, &['e', 'n', 'd']) {
        Some(NewPosition::End)
    } else {
        None
    }
}

/// The scope an `Off` argument names.
fn parse_target(arg: &str) -> (res: Option<OffTarget>)
    ensures
        res == target_of(arg@),
{
    let a = trimmed(&chars_of(arg));
    if word_is(&a, &['o', 'p', 'e', 'n']) {
        Some(OffTarget::Open)
    } else if word_is(&a, &['l', 'o', 'c', 'a', 't', 'i', 'o', 'n']) {
        Some(OffTarget::Location)
    } else if word_is(&a, &['n', 'e', 'w']) {
        Some(OffTarget::New)
    } else {
        None
    }
}

/// The header of a command line, for an error report.
fn header_text(name: &String, argument: &String) -> (res: String)
    ensures
        res@ == trim_ws(name@ + seq![':'] + argument@),
{
    let mut all = chars_of(name.as_str());
    all.push(':');
    let mut rest = chars_of(argument.as_str());
    all.append(&mut rest);
    assert(all@ =~= name@ + seq![':'] + argument@);
    string_from(&trimmed(&all))
}

/// The parser's state between tokens.
struct ParseState {
    depth: usize,
    armed: bool,
    block_location: bool,
    content_open: bool,
    raw_ok: bool,
}

/// The state and the commands so far, as the parse specification sees them.
spec fn progress_of(st: ParseState, commands: Seq<Command>) -> Progress {
    Progress {
        commands: command_views(commands),
        depth: st.depth as nat,
        armed: st.armed,
        block_location: st.block_location,
        content_open: st.content_open,
        raw_ok: st.raw_ok,
    }
}

/// A `New` with a `Raw` line, and the lines after it, added.
fn new_with_raw(position: NewPosition, content: NewContent, raw: String, more: &Vec<String>) -> (res: Command)
    ensures
        command_view(res) == with_raw(command_view(Command::New { position, content }), raw@, texts_of(more@)),
{
    let ghost old_lines = content.lines@;
    let ghost raw_view = raw@;
    let mut lines = content.lines;
    lines.push(NewLine { diff_taps: 0, content: raw, is_raw: true });
    let mut extra = new_lines_from(more);
    lines.append(&mut extra);
    assert(Seq::new(lines@.len(), |i: int| new_line_view(lines@[i])) =~= Seq::new(
        old_lines.len(),
        |i: int| new_line_view(old_lines[i]),
    ).push(NewLineView { diff_taps: 0, content: raw_view, is_raw: true }) + new_views(texts_of(more@)));
    Command::New { position, content: NewContent { lines } }
}

/// A `Delete` with a `Raw` line, and the lines after it, added.
fn delete_with_raw(
    block: bool,
    line_range: Option<LineRange>,
    content: Option<DeleteContent>,
    raw: String,
    more: &Vec<String>,
) -> (res: Command)
    ensures
        command_view(res) == with_raw(command_view(Command::Delete { block, line_range, content }), raw@, texts_of(more@)),
{
    let ghost raw_view = raw@;
    let ghost old_view = command_view(Command::Delete { block, line_range, content });
    let mut lines = match content {
        Some(d) => d.lines,
        None => Vec::new(),
    };
    let ghost old_lines = lines@;
    lines.push(DeleteLine { content: raw, is_raw: true });
    let mut extra = delete_lines_from(more);
    lines.append(&mut extra);
    assert(Seq::new(lines@.len(), |i: int| delete_line_view(lines@[i])) =~= Seq::new(
        old_lines.len(),
        |i: int| delete_line_view(old_lines[i]),
    ).push(DeleteLineView { content: raw_view, is_raw: true }) + delete_views(texts_of(more@)));
    assert((match old_view->lines {
        Some(l) => l,
        None => Seq::empty(),
    }) =~= Seq::new(old_lines.len(), |i: int| delete_line_view(old_lines[i])));
    Command::Delete { block, line_range, content: Some(DeleteContent { lines }) }
}

/// Adds a `Raw` line, and the lines after it, to a `New` or `Delete`.
fn add_raw(c: Command, raw: String, more: &Vec<String>) -> (res: Command)
    ensures
        command_view(res) == with_raw(command_view(c), raw@, texts_of(more@)),
{
    match c {
        Command::New { position, content } => new_with_raw(position, content, raw, more),
        Command::Delete { block, line_range, content } => delete_with_raw(block, line_range, content, raw, more),
        other => other,
    }
}

/// The text of a `Raw` line.
fn raw_line(arg: &String) -> (res: String)
    ensures
        res@ == raw_text(arg@),
{
    let cs = chars_of(arg.as_str());
    if cs.len() > 0 && cs[0] == ' ' {
        let r = string_of(&cs, 1, cs.len());
        assert(r@ =~= arg@.drop_first());
        r
    } else {
        arg.clone()
    }
}

/// `prefix` and `s`, trimmed.
fn trimmed_after(prefix: &str, s: &str) -> (res: String)
    ensures
        res@ == trim_ws(prefix@ + s@),
{
    let mut all = chars_of(prefix);
    let mut rest = chars_of(s);
    all.append(&mut rest);
    assert(all@ =~= prefix@ + s@);
    string_from(&trimmed(&all))
}

/// The token a group of script lines makes.
fn classify(g: LineGroup) -> (res: Token)
    ensures
        res@ == classified(g@),
{
    match g {
        LineGroup::Separator { line } => Token::Separator { line },
        LineGroup::Command { name, argument, lines, line } => {
            let ghost gv = g@;
            let nm = trimmed(&chars_of(name.as_str()));
            if word_is(&nm, &['o', 'p', 'e', 'n']) {
                let path = trimmed(&chars_of(argument.as_str()));
                Token::Open { file_path: string_from(&path), line }
            } else if word_is(&nm, &['l', 'o', 'c', 'a', 't', 'i', 'o', 'n']) {
                match parse_modifiers(argument.as_str()) {
                    None => Token::Unknown { text: header_text(&name, &argument), line },
                    Some((block, line_range)) => Token::Location { block, line_range, lines, line },
                }
            } else if word_is(&nm, &['n', 'e', 'w']) {
                match parse_position(argument.as_str()) {
                    None => Token::Unknown { text: header_text(&name, &argument), line },
                    Some(position) => Token::New { position, lines, line },
                }
            } else if word_is(&nm, &['d', 'e', 'l', 'e', 't', 'e']) {
                match parse_modifiers(argument.as_str()) {
                    None => Token::Unknown { text: header_text(&name, &argument), line },
                    Some((block, line_range)) => Token::Delete { block, line_range, lines, line },
                }
            } else if word_is(&nm, &['r', 'a', 'w']) {
                Token::Raw { content: raw_line(&argument), lines, line }
            } else if word_is(&nm, &['o', 'f', 'f']) {
                Token::Off { target: argument, line }
            } else {
                Token::Unknown { text: string_from(&nm), line }
            }
        },
    }
}

/// The lexer.
pub struct Lexer;

impl Lexer {
    /// Splits a script into tokens: each command line, with the content
    /// lines after it, as the command it names; and each `...` separator.
    pub fn tokenize(script: &str) -> (res: Vec<Token>)
        ensures
            token_views(res@) == tokens_of(text_lines(script@)),
    {
        let groups = group_lines(script);
        let ghost gs = group_views(groups@);
        let mut tokens: Vec<Token> = Vec::new();
        let mut rest = groups;
        let mut i: usize = 0;
        let n = rest.len();
        assert(token_views(tokens@) =~= Seq::new(0, |k: int| classified(gs[k])));
        assert(gs.skip(0) =~= gs);
        while i < n
            invariant
                n == gs.len(),
                i <= n,
                group_views(rest@) == gs.skip(i as int),
                token_views(tokens@) == Seq::new(i as nat, |k: int| classified(gs[k])),
            decreases n - i,
        {
            let ghost before = rest@;
            assert(group_views(rest@).len() == n - i);
            let g = rest.remove(0);
            assert(g@ == group_views(before)[0]);
            assert(g@ == gs[i as int]);
            assert(group_views(rest@) =~= gs.skip(i + 1)) by {
                assert forall|k: int| 0 <= k < rest@.len() implies #[trigger] rest@[k]@ == gs.skip(i + 1)[k] by {
                    assert(rest@[k] == before[k + 1]);
                    assert(group_views(before)[k + 1] == gs.skip(i as int)[k + 1]);
                }
            }
            let ghost old_tokens = token_views(tokens@);
            let t = classify(g);
            assert(t@ == classified(gs[i as int]));
            tokens.push(t);
            assert(token_views(tokens@) =~= old_tokens.push(t@));
            assert(token_views(tokens@) =~= Seq::new((i + 1) as nat, |k: int| classified(gs[k])));
            i = i + 1;
        }
        tokens
    }
}

/// Parses one token: checks it against the state, adds its command (or
/// extends the last one with a `Raw` line) and moves the state on.
fn parse_token(st: &mut ParseState, commands: &mut Vec<Command>, t: &Token) -> (res: Result<(), ParseError>)
    requires
        old(st).depth < usize::MAX,
        old(st).raw_ok ==> old(commands)@.len() > 0,
    ensures
        match step(progress_of(*old(st), old(commands)@), t@) {
            Ok(p) => res is Ok && progress_of(*final(st), final(commands)@) == p,
            Err(f) => res matches Err(e) && failure_of(e) == f,
        },
        final(st).depth <= old(st).depth + 1,
        final(st).raw_ok ==> final(commands)@.len() > 0,
{
    let ghost before = command_views(commands@);
    match t {
        Token::Separator { line } => {
            if st.content_open {
                st.armed = false;
                st.content_open = false;
                st.raw_ok = false;
                Ok(())
            } else {
                Err(ParseError::UnexpectedSeparator { line: *line })
            }
        },
        Token::Open { file_path, .. } => {
            if file_path.unicode_len() == 0 {
                return Err(ParseError::MissingFilePath);
            }
            let cmd = Command::Open { file_path: file_path.clone() };
            commands.push(cmd);
            assert(command_views(commands@) =~= before.push(command_view(cmd)));
            st.content_open = false;
            st.raw_ok = false;
            Ok(())
        },
        Token::Location { block, line_range, lines, .. } => {
            let loc_lines = location_lines(lines);
            let cmd = Command::Location { block: *block, line_range: *line_range, content: LocationContent { lines: loc_lines } };
            assert(command_view(cmd) == CommandView::Location {
                block: *block,
                line_range: *line_range,
                lines: location_views(texts_of(lines@)),
            });
            commands.push(cmd);
            assert(command_views(commands@) =~= before.push(command_view(cmd)));
            st.depth = st.depth + 1;
            st.armed = true;
            st.block_location = *block;
            st.content_open = true;
            st.raw_ok = false;
            Ok(())
        },
        Token::New { position, lines, line } => {
            if *position == NewPosition::Normal && !st.armed {
                return Err(ParseError::MissingLocation { command: String::from_str("New"), line: *line });
            }
            let new_lines = new_lines_from(lines);
            let cmd = Command::New { position: *position, content: NewContent { lines: new_lines } };
            assert(command_view(cmd) == CommandView::New { position: *position, lines: new_views(texts_of(lines@)) });
            commands.push(cmd);
            assert(command_views(commands@) =~= before.push(command_view(cmd)));
            st.content_open = true;
            st.raw_ok = true;
            Ok(())
        },
        Token::Delete { block, line_range, lines, line } => {
            if !st.armed {
                return Err(ParseError::MissingLocation { command: String::from_str("Delete"), line: *line });
            }
            if *block && !st.block_location {
                return Err(ParseError::BlockRequiredForDelete { line: *line });
            }
            let del_lines = delete_lines_from(lines);
            let cmd = Command::Delete {
                block: *block,
                line_range: *line_range,
                content: Some(DeleteContent { lines: del_lines }),
            };
            assert(command_view(cmd) == CommandView::Delete {
                block: *block,
                line_range: *line_range,
                lines: Some(delete_views(texts_of(lines@))),
            });
            commands.push(cmd);
            assert(command_views(commands@) =~= before.push(command_view(cmd)));
            st.content_open = true;
            st.raw_ok = true;
            Ok(())
        },
        Token::Raw { content, lines, line } => {
            if !st.raw_ok || commands.len() == 0 {
                return Err(ParseError::UnknownCommand { token: trimmed_after("Raw: ", content.as_str()), line: *line });
            }
            let last = commands.pop().unwrap();
            let cmd = add_raw(last, content.clone(), lines);
            commands.push(cmd);
            assert(command_views(commands@) =~= before.update(before.len() - 1, command_view(cmd)));
            st.content_open = true;
            Ok(())
        },
        Token::Off { target: arg, line } => {
            match parse_target(arg.as_str()) {
                None => Err(ParseError::UnknownCommand { token: trimmed_after("Off:", arg.as_str()), line: *line }),
                Some(target) => {
                    let cmd = Command::Off { target };
                    commands.push(cmd);
                    assert(command_views(commands@) =~= before.push(command_view(cmd)));
                    if target == OffTarget::Open {
                        st.depth = 0;
                    } else if st.depth > 0 {
                        st.depth = st.depth - 1;
                    }
                    st.armed = st.armed && st.depth > 0;
                    st.content_open = false;
                    st.raw_ok = false;
                    Ok(())
                },
            }
        },
        Token::Unknown { text, line } => Err(ParseError::UnknownCommand { token: text.clone(), line: *line }),
    }
}

/// Once parsing fails, more tokens do not change the error.
proof fn lemma_parse_error_sticks(ts: Seq<TokenView>, k: int)
    requires
        0 <= k <= ts.len(),
        parsed(ts.take(k)) is Err,
    ensures
        parsed(ts) == parsed(ts.take(k)),
    decreases ts.len() - k,
{
    if k < ts.len() {
        assert(ts.drop_last().take(k) =~= ts.take(k));
        lemma_parse_error_sticks(ts.drop_last(), k);
    } else {
        assert(ts.take(k) =~= ts);
    }
}

/// The parser.
pub struct Parser;

impl Parser {
    /// Turns tokens into commands (see `step` for each token), or reports
    /// the first token that breaks the script's rules.
    pub fn parse(tokens: Vec<Token>) -> (res: Result<Vec<Command>, ParseError>)
        ensures
            match parsed(token_views(tokens@)) {
                Ok(p) => res matches Ok(cs) && command_views(cs@) == p.commands,
                Err(f) => res matches Err(e) && failure_of(e) == f,
            },
    {
        let ghost ts = token_views(tokens@);
        let mut st = ParseState { depth: 0, armed: false, block_location: false, content_open: false, raw_ok: false };
        let mut commands: Vec<Command> = Vec::new();
        let mut i: usize = 0;
        assert(ts.take(0) =~= Seq::<TokenView>::empty());
        assert(command_views(commands@) =~= Seq::<CommandView>::empty());
        while i < tokens.len()
            invariant
                i <= tokens@.len(),
                ts == token_views(tokens@),
                parsed(ts.take(i as int)) == Ok::<Progress, ParseFailure>(progress_of(st, commands@)),
                st.depth <= i,
                st.raw_ok ==> commands@.len() > 0,
            decreases tokens@.len() - i,
        {
            assert(ts.take(i + 1).drop_last() =~= ts.take(i as int));
            assert(ts.take(i + 1).last() == tokens@[i as int]@);
            match parse_token(&mut st, &mut commands, &tokens[i]) {
                Ok(()) => {},
                Err(e) => {
                    proof { lemma_parse_error_sticks(ts, i + 1); }
                    return Err(e);
                },
            }
            i = i + 1;
        }
        assert(ts.take(tokens@.len() as int) =~= ts);
        Ok(commands)
    }
}

} // verus!
