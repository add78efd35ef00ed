//! Terminal output: the `+`/`-` diff listing of an edit and the error
//! report, optionally colored through `colored`.
use crate::model::{ContentBlock, Line, LineNumber};
use crate::text::{decimal, push_decimal, push_text, split_lines, text_lines, texts_of};
use colored::Colorize;
use vstd::prelude::*;

verus! {

/// Unchanged lines shown above and below each change.
pub const CONTEXT_MAX_LINES: usize = 7;

/// The ANSI sequence that selects `code`.
pub open spec fn esc(code: Seq<char>) -> Seq<char> {
    "\x1B["@ + code + "m"@
}

/// The ANSI reset sequence.
pub open spec fn reset_seq() -> Seq<char> {
    "\x1B[0m"@
}

/// `s` with `ins` inserted after every reset sequence it holds.
pub open spec fn reapply(s: Seq<char>, ins: Seq<char>) -> Seq<char>
    decreases s.len(),
{
    if s.len() < 4 {
        s
    } else if s.take(4) == reset_seq() {
        reset_seq() + ins + reapply(s.skip(4), ins)
    } else {
        seq![s[0]] + reapply(s.drop_first(), ins)
    }
}

/// `s` wrapped in the style `code`, nested resets re-applying it.
pub open spec fn styled(code: Seq<char>, s: Seq<char>) -> Seq<char> {
    esc(code) + reapply(s, esc(code)) + reset_seq()
}

/// What rendering `s` in style `code` gives: the text as is when the
/// environment turns coloring off, the styled text otherwise.
pub open spec fn painted(res: Seq<char>, s: Seq<char>, code: Seq<char>) -> bool {
    res == s || res == styled(code, s)
}

/// `s.green()` rendered (`colored::Colorize::green`, then `Display`).
/// `colored` styles the text only when its environment check (`NO_COLOR`,
/// `CLICOLOR`, `CLICOLOR_FORCE`, a terminal on stdout) allows; either way
/// the result is `painted` with SGR code 32.
#[verifier::external_body]
fn paint_green(s: &str) -> (res: String)
    ensures
        painted(res@, s@, "32"@),
{
    s.green().to_string()
}

/// `s.red()` rendered: `painted` with SGR code 31 (see `paint_green`).
#[verifier::external_body]
fn paint_red(s: &str) -> (res: String)
    ensures
        painted(res@, s@, "31"@),
{
    s.red().to_string()
}

/// `s.dimmed()` rendered: `painted` with SGR code 2 (see `paint_green`).
#[verifier::external_body]
fn paint_dimmed(s: &str) -> (res: String)
    ensures
        painted(res@, s@, "2"@),
{
    s.dimmed().to_string()
}

/// `s.yellow()` rendered: `painted` with SGR code 33 (see `paint_green`).
#[verifier::external_body]
fn paint_yellow(s: &str) -> (res: String)
    ensures
        painted(res@, s@, "33"@),
{
    s.yellow().to_string()
}

/// `s.white()` rendered: `painted` with SGR code 37 (see `paint_green`).
#[verifier::external_body]
fn paint_white(s: &str) -> (res: String)
    ensures
        painted(res@, s@, "37"@),
{
    s.white().to_string()
}

/// `s.red().bold()` rendered: `painted` with SGR codes 1;31 (the style
/// comes before the color; see `paint_green`).
#[verifier::external_body]
fn paint_red_bold(s: &str) -> (res: String)
    ensures
        painted(res@, s@, "1;31"@),
{
    s.red().bold().to_string()
}

/// `s.green().bold()` rendered: `painted` with SGR codes 1;32 (see
/// `paint_green`).
#[verifier::external_body]
fn paint_green_bold(s: &str) -> (res: String)
    ensures
        painted(res@, s@, "1;32"@),
{
    s.green().bold().to_string()
}

/// `piece` shows `text`: colored (or not) when `color`, verbatim otherwise.
pub open spec fn shown(piece: Seq<char>, text: Seq<char>, code: Seq<char>, color: bool) -> bool {
    if color { painted(piece, text, code) } else { piece == text }
}

/// Kind of a listed line.
#[derive(Debug, PartialEq, Eq, Structural, Clone, Copy)]
pub enum DiffLineKind {
    /// an inserted line
    Added,
    /// a removed line
    Deleted,
    /// context around a change
    Unchanged,
    /// `~~~~~~~~` between changes in different blocks
    Separator,
}

/// One listed line.
#[derive(Debug)]
pub struct DiffLine {
    pub kind: DiffLineKind,
    pub line_number: Option<LineNumber>,
    pub content: String,
}

impl DiffLine {
    /// A separator line.
    pub fn separator() -> (res: DiffLine)
        ensures
            res.kind == DiffLineKind::Separator,
            res.line_number is None,
            res.content@ == Seq::<char>::empty(),
    {
        DiffLine { kind: DiffLineKind::Separator, line_number: None, content: String::new() }
    }

    /// An unchanged context line.
    pub fn unchanged(line_number: LineNumber, content: String) -> (res: DiffLine)
        ensures
            res.kind == DiffLineKind::Unchanged,
            res.line_number == Some(line_number),
            res.content == content,
    {
        DiffLine { kind: DiffLineKind::Unchanged, line_number: Some(line_number), content }
    }

    /// An inserted line.
    pub fn added(line_number: LineNumber, content: String) -> (res: DiffLine)
        ensures
            res.kind == DiffLineKind::Added,
            res.line_number == Some(line_number),
            res.content == content,
    {
        DiffLine { kind: DiffLineKind::Added, line_number: Some(line_number), content }
    }

    /// A removed line.
    pub fn deleted(line_number: LineNumber, content: String) -> (res: DiffLine)
        ensures
            res.kind == DiffLineKind::Deleted,
            res.line_number == Some(line_number),
            res.content == content,
    {
        DiffLine { kind: DiffLineKind::Deleted, line_number: Some(line_number), content }
    }
}

/// `<mark> L<n>: <content>` or, without a number, `<mark> <content>`.
pub open spec fn marked(mark: Seq<char>, n: Option<LineNumber>, content: Seq<char>) -> Seq<char> {
    match n {
        Some(x) => mark + " L"@ + decimal(x.0 as nat) + ": "@ + content + "\n"@,
        None => mark + " "@ + content + "\n"@,
    }
}

/// `out` is how `l` is listed.
pub open spec fn line_rendered(l: DiffLine, color: bool, out: Seq<char>) -> bool {
    match l.kind {
        DiffLineKind::Added => exists|p: Seq<char>, c: Seq<char>|
            shown(p, "+"@, "32"@, color) && shown(c, l.content@, "32"@, color)
                && out == marked(p, l.line_number, c),
        DiffLineKind::Deleted => exists|p: Seq<char>, c: Seq<char>|
            shown(p, "-"@, "31"@, color) && shown(c, l.content@, "31"@, color)
                && out == marked(p, l.line_number, c),
        DiffLineKind::Unchanged => exists|c: Seq<char>|
            shown(c, l.content@, "2"@, color) && out == marked(" "@, l.line_number, c),
        DiffLineKind::Separator => exists|s: Seq<char>|
            shown(s, "  ~~~~~~~~"@, "2"@, color) && out == s + "\n"@,
    }
}

/// How `l` is listed without color.
pub open spec fn plain_line(l: DiffLine) -> Seq<char> {
    match l.kind {
        DiffLineKind::Added => marked("+"@, l.line_number, l.content@),
        DiffLineKind::Deleted => marked("-"@, l.line_number, l.content@),
        DiffLineKind::Unchanged => marked(" "@, l.line_number, l.content@),
        DiffLineKind::Separator => "  ~~~~~~~~\n"@,
    }
}

/// The pieces one after the other.
pub open spec fn concat(pieces: Seq<Seq<char>>) -> Seq<char>
    decreases pieces.len(),
{
    if pieces.len() == 0 { Seq::empty() } else { concat(pieces.drop_last()) + pieces.last() }
}

/// `out` lists `lines`, one piece per line.
pub open spec fn diff_rendered(lines: Seq<DiffLine>, color: bool, out: Seq<char>) -> bool {
    exists|pieces: Seq<Seq<char>>| #[trigger] concat(pieces) == out && pieces.len() == lines.len()
        && forall|i: int| 0 <= i < lines.len() ==> line_rendered(lines[i], color, #[trigger] pieces[i])
}

/// The uncolored listing of `lines`.
pub open spec fn plain_diff(lines: Seq<DiffLine>) -> Seq<char> {
    concat(Seq::new(lines.len(), |i: int| plain_line(lines[i])))
}

/// Without color a listing is exactly the plain one.
pub proof fn lemma_plain_rendering(lines: Seq<DiffLine>, out: Seq<char>)
    requires
        diff_rendered(lines, false, out),
    ensures
        out == plain_diff(lines),
{
    let pieces = choose|pieces: Seq<Seq<char>>| #[trigger] concat(pieces) == out && pieces.len() == lines.len()
        && forall|i: int| 0 <= i < lines.len() ==> line_rendered(lines[i], false, #[trigger] pieces[i]);
    assert forall|i: int| 0 <= i < lines.len() implies pieces[i] == plain_line(lines[i]) by {
        lemma_plain_line(lines[i], pieces[i]);
    }
    assert(pieces =~= Seq::new(lines.len(), |i: int| plain_line(lines[i])));
}

/// Without color a line is listed exactly the plain way.
pub proof fn lemma_plain_line(l: DiffLine, out: Seq<char>)
    requires
        line_rendered(l, false, out),
    ensures
        out == plain_line(l),
{
    match l.kind {
        DiffLineKind::Added => {
            let (p, c): (Seq<char>, Seq<char>) = choose|p: Seq<char>, c: Seq<char>|
                shown(p, "+"@, "32"@, false) && shown(c, l.content@, "32"@, false)
                    && out == marked(p, l.line_number, c);
        },
        DiffLineKind::Deleted => {
            let (p, c): (Seq<char>, Seq<char>) = choose|p: Seq<char>, c: Seq<char>|
                shown(p, "-"@, "31"@, false) && shown(c, l.content@, "31"@, false)
                    && out == marked(p, l.line_number, c);
        },
        DiffLineKind::Unchanged => {
            let c = choose|c: Seq<char>| shown(c, l.content@, "2"@, false) && out == marked(" "@, l.line_number, c);
        },
        DiffLineKind::Separator => {
            let sp = choose|sp: Seq<char>| shown(sp, "  ~~~~~~~~"@, "2"@, false) && out == sp + "\n"@;
            assert(sp + "\n"@ == "  ~~~~~~~~\n"@) by {
                reveal_strlit("  ~~~~~~~~");
                reveal_strlit("\n");
                reveal_strlit("  ~~~~~~~~\n");
                assert(sp + "\n"@ =~= "  ~~~~~~~~\n"@);
            }
        },
    }
}

/// Formats diff lines for the terminal.
pub struct OutputFormatter {
    use_color: bool,
}

impl OutputFormatter {
    pub closed spec fn colored(&self) -> bool {
        self.use_color
    }

    /// A formatter that colors its output when `use_color` is set.
    pub fn with_color(use_color: bool) -> (res: OutputFormatter)
        ensures
            res.colored() == use_color,
    {
        OutputFormatter { use_color }
    }

    /// One listed line.
    fn format_diff_line(&self, line: &DiffLine) -> (res: String)
        ensures
            line_rendered(*line, self.use_color, res@),
    {
        let mut out = String::new();
        match line.kind {
            DiffLineKind::Added | DiffLineKind::Deleted => {
                let is_added = line.kind == DiffLineKind::Added;
                let prefix = if self.use_color {
                    if is_added { paint_green("+") } else { paint_red("-") }
                } else {
                    String::from_str(if is_added { "+" } else { "-" })
                };
                let content = if self.use_color {
                    if is_added {
                        paint_green(line.content.as_str())
                    } else {
                        paint_red(line.content.as_str())
                    }
                } else {
                    line.content.clone()
                };
                push_text(&mut out, prefix.as_str());
                match line.line_number {
                    Some(n) => {
                        push_text(&mut out, " L");
                        push_decimal(&mut out, n.0);
                        push_text(&mut out, ": ");
                    },
                    None => {
                        push_text(&mut out, " ");
                    },
                }
                push_text(&mut out, content.as_str());
                push_text(&mut out, "\n");
                assert(out@ =~= marked(prefix@, line.line_number, content@));
            },
            DiffLineKind::Unchanged => {
                let content = if self.use_color {
                    paint_dimmed(line.content.as_str())
                } else {
                    line.content.clone()
                };
                push_text(&mut out, " ");
                match line.line_number {
                    Some(n) => {
                        push_text(&mut out, " L");
                        push_decimal(&mut out, n.0);
                        push_text(&mut out, ": ");
                    },
                    None => {
                        push_text(&mut out, " ");
                    },
                }
                push_text(&mut out, content.as_str());
                push_text(&mut out, "\n");
                assert(out@ =~= marked(" "@, line.line_number, content@));
            },
            DiffLineKind::Separator => {
                let sep = if self.use_color {
                    paint_dimmed("  ~~~~~~~~")
                } else {
                    String::from_str("  ~~~~~~~~")
                };
                push_text(&mut out, sep.as_str());
                push_text(&mut out, "\n");
                assert(out@ =~= sep@ + "\n"@);
            },
        }
        out
    }

    /// Lists `lines`, one output line each: `+ L<n>: <text>` for inserted
    /// lines, `- L<n>: <text>` for removed ones, `  L<n>: <text>` for
    /// context and `  ~~~~~~~~` for separators (the ` L<n>:` part is left
    /// out for a line without a number). With color, marks and inserted
    /// text are green, removed text red, context and separators dimmed.
    pub fn format_diff_lines(&self, lines: &[DiffLine]) -> (res: String)
        ensures
            diff_rendered(lines@, self.colored(), res@),
            !self.colored() ==> res@ == plain_diff(lines@),
    {
        let mut out = String::new();
        let ghost mut pieces: Seq<Seq<char>> = Seq::empty();
        let mut i: usize = 0;
        while i < lines.len()
            invariant
                i <= lines@.len(),
                pieces.len() == i,
                out@ == concat(pieces),
                forall|k: int| 0 <= k < i ==> line_rendered(lines@[k], self.use_color, #[trigger] pieces[k]),
            decreases lines@.len() - i,
        {
            let piece = self.format_diff_line(&lines[i]);
            push_text(&mut out, piece.as_str());
            proof {
                let old_pieces = pieces;
                pieces = pieces.push(piece@);
                assert(pieces.drop_last() =~= old_pieces);
            }
            i = i + 1;
        }
        assert(diff_rendered(lines@, self.use_color, out@));
        proof {
            if !self.use_color {
                lemma_plain_rendering(lines@, out@);
            }
        }
        out
    }

    /// Lists the lines of `block` as context lines with their numbers.
    pub fn format_block(&self, block: &ContentBlock) -> (res: String)
        ensures
            diff_rendered(context_of(block.lines@), self.colored(), res@),
            !self.colored() ==> res@ == plain_diff(context_of(block.lines@)),
    {
        let mut listed: Vec<DiffLine> = Vec::new();
        let mut i: usize = 0;
        while i < block.lines.len()
            invariant
                i <= block.lines@.len(),
                listed@ == context_of(block.lines@.take(i as int)),
            decreases block.lines@.len() - i,
        {
            let line = &block.lines[i];
            listed.push(DiffLine::unchanged(line.line_num, line.content.clone()));
            assert(listed@ =~= context_of(block.lines@.take(i + 1)));
            i = i + 1;
        }
        assert(block.lines@.take(block.lines@.len() as int) =~= block.lines@);
        self.format_diff_lines(listed.as_slice())
    }
}

/// The lines as numbered context lines.
pub open spec fn context_of(lines: Seq<Line>) -> Seq<DiffLine> {
    Seq::new(
        lines.len(),
        |i: int| DiffLine { kind: DiffLineKind::Unchanged, line_number: Some(lines[i].line_num), content: lines[i].content },
    )
}

/// `out` is the header line of an error report.
pub open spec fn header_rendered(out: Seq<char>, title: Seq<char>, color: bool) -> bool {
    exists|e: Seq<char>, t: Seq<char>|
        shown(e, "Error:"@, "1;31"@, color) && shown(t, title, "33"@, color) && out == e + " "@ + t + "\n"@
}

/// `out` is one detail line of an error report.
pub open spec fn detail_rendered(out: Seq<char>, line: Seq<char>, color: bool) -> bool {
    exists|d: Seq<char>| shown(d, line, "2"@, color) && out == "  "@ + d + "\n"@
}

/// `out` is one hint line of an error report.
pub open spec fn hint_rendered(out: Seq<char>, hint: Seq<char>, color: bool) -> bool {
    exists|k: Seq<char>, h: Seq<char>|
        shown(k, "Hint:"@, "1;32"@, color) && shown(h, hint, "37"@, color) && out == "  "@ + k + " "@ + h + "\n"@
}

/// `out` is the error report: the header, a line per line of `detail`,
/// a line per hint.
pub open spec fn error_rendered(
    out: Seq<char>,
    title: Seq<char>,
    detail: Seq<char>,
    hints: Seq<Seq<char>>,
    color: bool,
) -> bool {
    let dl = text_lines(detail);
    exists|parts: Seq<Seq<char>>| #[trigger] concat(parts) == out && parts.len() == 1 + dl.len() + hints.len()
        && header_rendered(parts[0], title, color)
        && (forall|i: int| 0 <= i < dl.len() ==> detail_rendered(#[trigger] parts[1 + i], dl[i], color))
        && (forall|j: int| 0 <= j < hints.len() ==> hint_rendered(#[trigger] parts[1 + dl.len() + j], hints[j], color))
}

/// The uncolored error report.
pub open spec fn plain_error(title: Seq<char>, detail: Seq<char>, hints: Seq<Seq<char>>) -> Seq<char> {
    let dl = text_lines(detail);
    "Error: "@ + title + "\n"@
        + concat(Seq::new(dl.len(), |i: int| "  "@ + dl[i] + "\n"@))
        + concat(Seq::new(hints.len(), |j: int| "  Hint: "@ + hints[j] + "\n"@))
}

/// The views of a list of string slices.
pub open spec fn slice_texts(v: Seq<&str>) -> Seq<Seq<char>> {
    Seq::new(v.len(), |i: int| v[i]@)
}

pub(crate) proof fn lemma_concat_append(a: Seq<Seq<char>>, b: Seq<Seq<char>>)
    ensures
        concat(a + b) == concat(a) + concat(b),
    decreases b.len(),
{
    if b.len() == 0 {
        assert(a + b =~= a);
    } else {
        lemma_concat_append(a, b.drop_last());
        assert((a + b).drop_last() =~= a + b.drop_last());
    }
}

pub(crate) proof fn lemma_concat_single(x: Seq<char>)
    ensures
        concat(seq![x]) == x,
{
    assert(seq![x].drop_last() =~= Seq::<Seq<char>>::empty());
    assert(concat(Seq::<Seq<char>>::empty()) == Seq::<char>::empty());
    assert(concat(seq![x]) =~= x);
}

/// Without color the report is exactly the plain one.
proof fn lemma_plain_error(out: Seq<char>, title: Seq<char>, detail: Seq<char>, hints: Seq<Seq<char>>)
    requires
        error_rendered(out, title, detail, hints, false),
    ensures
        out == plain_error(title, detail, hints),
{
    let dl = text_lines(detail);
    let parts = choose|parts: Seq<Seq<char>>| #[trigger] concat(parts) == out && parts.len() == 1 + dl.len() + hints.len()
        && header_rendered(parts[0], title, false)
        && (forall|i: int| 0 <= i < dl.len() ==> detail_rendered(#[trigger] parts[1 + i], dl[i], false))
        && (forall|j: int| 0 <= j < hints.len() ==> hint_rendered(#[trigger] parts[1 + dl.len() + j], hints[j], false));
    let (e, t): (Seq<char>, Seq<char>) = choose|e: Seq<char>, t: Seq<char>|
        shown(e, "Error:"@, "1;31"@, false) && shown(t, title, "33"@, false) && parts[0] == e + " "@ + t + "\n"@;
    assert(parts[0] == "Error: "@ + title + "\n"@) by {
        reveal_strlit("Error:");
        reveal_strlit(" ");
        reveal_strlit("Error: ");
        assert(e + " "@ =~= "Error: "@);
    }
    let ds = Seq::new(dl.len(), |i: int| "  "@ + dl[i] + "\n"@);
    let hs = Seq::new(hints.len(), |j: int| "  Hint: "@ + hints[j] + "\n"@);
    assert forall|i: int| 0 <= i < dl.len() implies parts[1 + i] == ds[i] by {
        let d = choose|d: Seq<char>| shown(d, dl[i], "2"@, false) && parts[1 + i] == "  "@ + d + "\n"@;
    }
    assert forall|j: int| 0 <= j < hints.len() implies parts[1 + dl.len() + j] == hs[j] by {
        let (k, h): (Seq<char>, Seq<char>) = choose|k: Seq<char>, h: Seq<char>|
            shown(k, "Hint:"@, "1;32"@, false) && shown(h, hints[j], "37"@, false)
                && parts[1 + dl.len() + j] == "  "@ + k + " "@ + h + "\n"@;
        assert("  "@ + k + " "@ =~= "  Hint: "@) by {
            reveal_strlit("  ");
            reveal_strlit("Hint:");
            reveal_strlit(" ");
            reveal_strlit("  Hint: ");
        }
        assert(parts[1 + dl.len() + j] =~= hs[j]);
    }
    assert(parts =~= seq!["Error: "@ + title + "\n"@] + ds + hs);
    lemma_concat_append(seq!["Error: "@ + title + "\n"@] + ds, hs);
    lemma_concat_append(seq!["Error: "@ + title + "\n"@], ds);
    lemma_concat_single("Error: "@ + title + "\n"@);
}

/// The error report: `Error: <title>`, each line of `detail` indented by
/// two spaces, then `  Hint: <hint>` per hint; with color the word
/// `Error:` is bold red, the title yellow, detail dimmed, `Hint:` bold
/// green and the hint white.
pub fn format_error_with_color(title: &str, detail: &str, hints: &[&str], use_color: bool) -> (res: String)
    ensures
        error_rendered(res@, title@, detail@, slice_texts(hints@), use_color),
        !use_color ==> res@ == plain_error(title@, detail@, slice_texts(hints@)),
{
    format_error_impl(title, detail, hints, use_color)
}

fn format_error_impl(title: &str, detail: &str, hints: &[&str], use_color: bool) -> (res: String)
    ensures
        error_rendered(res@, title@, detail@, slice_texts(hints@), use_color),
        !use_color ==> res@ == plain_error(title@, detail@, slice_texts(hints@)),
{
    let mut output = String::new();
    let ghost mut parts: Seq<Seq<char>> = Seq::empty();
    let (e, t) = if use_color {
        (paint_red_bold("Error:"), paint_yellow(title))
    } else {
        (String::from_str("Error:"), String::from_str(title))
    };
    push_text(&mut output, e.as_str());
    push_text(&mut output, " ");
    push_text(&mut output, t.as_str());
    push_text(&mut output, "\n");
    proof {
        parts = seq![output@];
        lemma_concat_single(output@);
        assert(header_rendered(parts[0], title@, use_color)) by {
            assert(parts[0] =~= e@ + " "@ + t@ + "\n"@);
        }
    }
    let detail_lines = split_lines(detail);
    let ghost dl = text_lines(detail@);
    let mut i: usize = 0;
    while i < detail_lines.len()
        invariant
            i <= detail_lines@.len(),
            texts_of(detail_lines@) == dl,
            parts.len() == 1 + i,
            output@ == concat(parts),
            header_rendered(parts[0], title@, use_color),
            forall|k: int| 0 <= k < i ==> detail_rendered(#[trigger] parts[1 + k], dl[k], use_color),
        decreases detail_lines@.len() - i,
    {
        let d = if use_color {
            paint_dimmed(detail_lines[i].as_str())
        } else {
            detail_lines[i].clone()
        };
        let mut piece = String::new();
        push_text(&mut piece, "  ");
        push_text(&mut piece, d.as_str());
        push_text(&mut piece, "\n");
        push_text(&mut output, piece.as_str());
        proof {
            assert(dl[i as int] == detail_lines@[i as int]@);
            assert(shown(d@, dl[i as int], "2"@, use_color));
            assert(detail_rendered(piece@, dl[i as int], use_color)) by {
                assert(piece@ =~= "  "@ + d@ + "\n"@);
            }
            let old_parts = parts;
            parts = parts.push(piece@);
            assert(parts.drop_last() =~= old_parts);
            assert forall|k: int| 0 <= k < i + 1 implies detail_rendered(#[trigger] parts[1 + k], dl[k], use_color) by {
                if k < i {
                    assert(parts[1 + k] == old_parts[1 + k]);
                }
            }
        }
        i = i + 1;
    }
    let mut j: usize = 0;
    while j < hints.len()
        invariant
            j <= hints@.len(),
            i == dl.len(),
            parts.len() == 1 + dl.len() + j,
            output@ == concat(parts),
            header_rendered(parts[0], title@, use_color),
            forall|k: int| 0 <= k < dl.len() ==> detail_rendered(#[trigger] parts[1 + k], dl[k], use_color),
            forall|k: int| 0 <= k < j ==> hint_rendered(#[trigger] parts[1 + dl.len() + k], slice_texts(hints@)[k], use_color),
        decreases hints@.len() - j,
    {
        let (k, h) = if use_color {
            (paint_green_bold("Hint:"), paint_white(hints[j]))
        } else {
            (String::from_str("Hint:"), String::from_str(hints[j]))
        };
        let mut piece = String::new();
        push_text(&mut piece, "  ");
        push_text(&mut piece, k.as_str());
        push_text(&mut piece, " ");
        push_text(&mut piece, h.as_str());
        push_text(&mut piece, "\n");
        push_text(&mut output, piece.as_str());
        proof {
            assert(hint_rendered(piece@, slice_texts(hints@)[j as int], use_color)) by {
                assert(piece@ =~= "  "@ + k@ + " "@ + h@ + "\n"@);
            }
            let old_parts = parts;
            parts = parts.push(piece@);
            assert(parts.drop_last() =~= old_parts);
            assert forall|q: int| 0 <= q < dl.len() implies detail_rendered(#[trigger] parts[1 + q], dl[q], use_color) by {
                assert(parts[1 + q] == old_parts[1 + q]);
            }
            assert forall|q: int| 0 <= q < j + 1 implies hint_rendered(#[trigger] parts[1 + dl.len() + q], slice_texts(hints@)[q], use_color) by {
                if q < j {
                    assert(parts[1 + dl.len() + q] == old_parts[1 + dl.len() + q]);
                }
            }
        }
        j = j + 1;
    }
    assert(error_rendered(output@, title@, detail@, slice_texts(hints@), use_color));
    proof {
        if !use_color {
            lemma_plain_error(output@, title@, detail@, slice_texts(hints@));
        }
    }
    output
}

/// `s` holds no `c`.
pub open spec fn lacks(s: Seq<char>, c: char) -> bool {
    forall|i: int| 0 <= i < s.len() ==> s[i] != c
}

/// What a terminal shows of `s`: every ANSI sequence (from an escape
/// character up to and including the next `m`) taken out.
pub open spec fn strip_ansi(s: Seq<char>) -> Seq<char>
    decreases s.len(),
{
    if s.len() == 0 {
        Seq::empty()
    } else if s[0] == '\x1B' {
        skip_sequence(s.drop_first())
    } else {
        seq![s[0]] + strip_ansi(s.drop_first())
    }
}

/// What is shown of `s` once the `m` that ends the ANSI sequence `s` is
/// in has passed.
pub open spec fn skip_sequence(s: Seq<char>) -> Seq<char>
    decreases s.len(),
{
    if s.len() == 0 {
        Seq::empty()
    } else if s[0] == 'm' {
        strip_ansi(s.drop_first())
    } else {
        skip_sequence(s.drop_first())
    }
}

} // verus!
