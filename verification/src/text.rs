//! Character-level helpers shared by the matcher, the engine and the
//! output formatter: whitespace classification, stripping, indentation
//! counting and decimal rendering.
use vstd::prelude::*;

verus! {

/// Unicode `White_Space`, the set that `char::is_whitespace` and
/// `str::trim` use.
pub open spec fn is_ws(c: char) -> bool {
    ||| ('\u{9}' <= c && c <= '\u{d}')
    ||| c == ' '
    ||| c == '\u{85}'
    ||| c == '\u{a0}'
    ||| c == '\u{1680}'
    ||| ('\u{2000}' <= c && c <= '\u{200a}')
    ||| c == '\u{2028}'
    ||| c == '\u{2029}'
    ||| c == '\u{202f}'
    ||| c == '\u{205f}'
    ||| c == '\u{3000}'
}

/// The characters of `s` that are not whitespace, in order.
pub open spec fn strip_ws(s: Seq<char>) -> Seq<char>
    decreases s.len(),
{
    if s.len() == 0 {
        Seq::empty()
    } else if is_ws(s.last()) {
        strip_ws(s.drop_last())
    } else {
        strip_ws(s.drop_last()).push(s.last())
    }
}

/// A line is blank when it holds nothing but whitespace (`trim().is_empty()`).
pub open spec fn is_blank(s: Seq<char>) -> bool {
    forall|i: int| 0 <= i < s.len() ==> is_ws(#[trigger] s[i])
}

/// Number of ASCII spaces at the start of `s` (a tab is not a space).
pub open spec fn leading_spaces(s: Seq<char>) -> nat
    decreases s.len(),
{
    if s.len() == 0 || s[0] != ' ' {
        0
    } else {
        1 + leading_spaces(s.drop_first())
    }
}

/// `parts` joined with `sep` between neighbours.
pub open spec fn join_with(parts: Seq<Seq<char>>, sep: Seq<char>) -> Seq<char>
    decreases parts.len(),
{
    if parts.len() == 0 {
        Seq::empty()
    } else if parts.len() == 1 {
        parts[0]
    } else {
        join_with(parts.drop_last(), sep) + sep + parts.last()
    }
}

/// Joining one more part appends the separator and the part.
pub proof fn lemma_join_step(parts: Seq<Seq<char>>, sep: Seq<char>, i: int)
    requires
        0 < i < parts.len(),
    ensures
        join_with(parts.take(i + 1), sep) == join_with(parts.take(i), sep) + sep + parts[i],
{
    assert(parts.take(i + 1).drop_last() =~= parts.take(i));
}

/// Bytes that `c` takes in UTF-8 (`char::len_utf8`).
pub open spec fn char_width(c: char) -> nat {
    if (c as u32) < 0x80 { 1 }
    else if (c as u32) < 0x800 { 2 }
    else if (c as u32) < 0x10000 { 3 }
    else { 4 }
}

/// Bytes that `s` takes in UTF-8 (`str::len`).
pub open spec fn utf8_len(s: Seq<char>) -> nat
    decreases s.len(),
{
    if s.len() == 0 { 0 } else { utf8_len(s.drop_last()) + char_width(s.last()) }
}

/// The longest prefix of `s` that fits in `b` bytes.
pub open spec fn byte_prefix(s: Seq<char>, b: nat) -> Seq<char>
    decreases s.len(),
{
    if s.len() == 0 || char_width(s[0]) > b {
        Seq::empty()
    } else {
        seq![s[0]] + byte_prefix(s.drop_first(), (b - char_width(s[0])) as nat)
    }
}

/// Decimal digits of `n`, most significant first, as `Display` prints it.
pub open spec fn decimal(n: nat) -> Seq<char>
    decreases n,
{
    if n < 10 {
        seq![digit_char(n)]
    } else {
        decimal(n / 10).push(digit_char(n % 10))
    }
}

pub open spec fn digit_char(d: nat) -> char {
    if d == 0 { '0' }
    else if d == 1 { '1' }
    else if d == 2 { '2' }
    else if d == 3 { '3' }
    else if d == 4 { '4' }
    else if d == 5 { '5' }
    else if d == 6 { '6' }
    else if d == 7 { '7' }
    else if d == 8 { '8' }
    else { '9' }
}

/// Appends one character (`String::push`).
#[verifier::external_body]
pub(crate) fn push_char(s: &mut String, c: char)
    ensures
        final(s)@ == old(s)@.push(c),
{
    s.push(c);
}

/// `char::is_whitespace`.
pub fn is_whitespace(c: char) -> (res: bool)
    ensures
        res == is_ws(c),
{
    ('\u{9}' <= c && c <= '\u{d}') || c == ' ' || c == '\u{85}' || c == '\u{a0}' || c == '\u{1680}'
        || ('\u{2000}' <= c && c <= '\u{200a}') || c == '\u{2028}' || c == '\u{2029}'
        || c == '\u{202f}' || c == '\u{205f}' || c == '\u{3000}'
}

/// The characters of a string slice, in order.
pub fn chars_of(s: &str) -> (res: Vec<char>)
    ensures
        res@ == s@,
{
    let mut out: Vec<char> = Vec::new();
    for c in it: s.chars()
        invariant
            out@ == it.seq().take(it.index() as int),
    {
        out.push(c);
    }
    out
}


/// `s` with every whitespace character removed.
pub fn strip_whitespace(s: &str) -> (res: String)
    ensures
        res@ == strip_ws(s@),
{
    let cs = chars_of(s);
    let mut out = String::new();
    let mut i: usize = 0;
    while i < cs.len()
        invariant
            i <= cs@.len(),
            cs@ == s@,
            out@ == strip_ws(cs@.take(i as int)),
        decreases cs@.len() - i,
    {
        let c = cs[i];
        assert(cs@.take(i as int + 1).drop_last() =~= cs@.take(i as int));
        if !is_whitespace(c) {
            push_char(&mut out, c);
        }
        i = i + 1;
    }
    assert(cs@.take(cs@.len() as int) =~= cs@);
    out
}

/// `trim().is_empty()`: the slice holds only whitespace.
pub fn blank(s: &str) -> (res: bool)
    ensures
        res == is_blank(s@),
{
    let cs = chars_of(s);
    let mut i: usize = 0;
    while i < cs.len()
        invariant
            i <= cs@.len(),
            cs@ == s@,
            forall|j: int| 0 <= j < i ==> is_ws(#[trigger] cs@[j]),
        decreases cs@.len() - i,
    {
        if !is_whitespace(cs[i]) {
            return false;
        }
        i = i + 1;
    }
    true
}

pub proof fn lemma_leading_spaces_prefix(s: Seq<char>, i: int)
    requires
        0 <= i <= s.len(),
        forall|j: int| 0 <= j < i ==> s[j] == ' ',
    ensures
        leading_spaces(s) == i + leading_spaces(s.skip(i)),
    decreases i,
{
    if i > 0 {
        lemma_leading_spaces_prefix(s.drop_first(), i - 1);
        assert(s.drop_first().skip(i - 1) =~= s.skip(i));
    } else {
        assert(s.skip(0) =~= s);
    }
}

/// A line has no more leading spaces than characters.
pub proof fn lemma_leading_spaces_bound(s: Seq<char>)
    ensures
        leading_spaces(s) <= s.len(),
    decreases s.len(),
{
    if s.len() > 0 && s[0] == ' ' {
        lemma_leading_spaces_bound(s.drop_first());
    }
}

/// Number of ASCII spaces that open the slice.
pub fn count_spaces(s: &str) -> (res: usize)
    ensures
        res == leading_spaces(s@),
{
    let cs = chars_of(s);
    let mut i: usize = 0;
    while i < cs.len() && cs[i] == ' '
        invariant
            i <= cs@.len(),
            cs@ == s@,
            forall|j: int| 0 <= j < i ==> cs@[j] == ' ',
        decreases cs@.len() - i,
    {
        i = i + 1;
    }
    proof {
        lemma_leading_spaces_prefix(cs@, i as int);
    }
    i
}

fn digit(d: usize) -> (c: char)
    requires
        d < 10,
    ensures
        c == digit_char(d as nat),
{
    if d == 0 { '0' }
    else if d == 1 { '1' }
    else if d == 2 { '2' }
    else if d == 3 { '3' }
    else if d == 4 { '4' }
    else if d == 5 { '5' }
    else if d == 6 { '6' }
    else if d == 7 { '7' }
    else if d == 8 { '8' }
    else { '9' }
}

/// Appends the decimal digits of `n` (what `format!("{}", n)` prints).
pub fn push_decimal(out: &mut String, n: usize)
    ensures
        final(out)@ == old(out)@ + decimal(n as nat),
    decreases n,
{
    if n >= 10 {
        push_decimal(out, n / 10);
    }
    push_char(out, digit(n % 10));
}

/// The decimal rendering of `n`.
pub fn decimal_string(n: usize) -> (res: String)
    ensures
        res@ == decimal(n as nat),
{
    let mut s = String::new();
    push_decimal(&mut s, n);
    assert(s@ =~= decimal(n as nat));
    s
}

/// UTF-8 width of one character.
pub fn width_of(c: char) -> (res: usize)
    ensures
        res == char_width(c),
{
    if '\u{80}' > c {
        1
    } else if '\u{800}' > c {
        2
    } else if '\u{10000}' > c {
        3
    } else {
        4
    }
}

/// Appends a string slice.
pub fn push_text(out: &mut String, s: &str)
    ensures
        final(out)@ == old(out)@ + s@,
{
    out.append(s);
}

/// The raw pieces of `s` between line feeds (always at least one piece).
pub open spec fn segments(s: Seq<char>) -> Seq<Seq<char>>
    decreases s.len(),
{
    if s.len() == 0 {
        seq![Seq::empty()]
    } else if s.last() == '\n' {
        segments(s.drop_last()).push(Seq::empty())
    } else {
        let r = segments(s.drop_last());
        r.update(r.len() - 1, r.last().push(s.last()))
    }
}

/// A line that was ended by a line feed loses one trailing carriage return.
pub open spec fn drop_cr(seg: Seq<char>) -> Seq<char> {
    if seg.len() > 0 && seg.last() == '\r' { seg.drop_last() } else { seg }
}

/// The lines of `s` as `str::lines` yields them: split at `\n` (or
/// `\r\n`), no empty line after a final line break.
pub open spec fn text_lines(s: Seq<char>) -> Seq<Seq<char>> {
    let segs = segments(s);
    let ended = segs.drop_last();
    let body = Seq::new(ended.len(), |i: int| drop_cr(ended[i]));
    if segs.last().len() == 0 { body } else { body.push(segs.last()) }
}

/// The views of a list of strings.
pub open spec fn texts_of(v: Seq<String>) -> Seq<Seq<char>> {
    Seq::new(v.len(), |i: int| v[i]@)
}

/// The lines of `text`, as `str::lines` yields them.
pub fn split_lines(text: &str) -> (res: Vec<String>)
    ensures
        texts_of(res@) == text_lines(text@),
{
    let cs = chars_of(text);
    let mut raw: Vec<String> = Vec::new();
    let mut cur = String::new();
    let mut i: usize = 0;
    while i < cs.len()
        invariant
            i <= cs@.len(),
            cs@ == text@,
            segments(cs@.take(i as int)) == texts_of(raw@).push(cur@),
        decreases cs@.len() - i,
    {
        let c = cs[i];
        let ghost before = texts_of(raw@);
        assert(cs@.take(i + 1).drop_last() =~= cs@.take(i as int));
        assert(cs@.take(i + 1).last() == c);
        if c == '\n' {
            raw.push(cur);
            cur = String::new();
            assert(texts_of(raw@) =~= before.push(raw@.last()@));
        } else {
            push_char(&mut cur, c);
            assert(texts_of(raw@) =~= before);
        }
        i = i + 1;
    }
    assert(cs@.take(cs@.len() as int) =~= cs@);
    let ghost segs = segments(text@);
    let mut out: Vec<String> = Vec::new();
    let mut j: usize = 0;
    while j < raw.len()
        invariant
            j <= raw@.len(),
            segs == texts_of(raw@).push(cur@),
            texts_of(out@) == Seq::new(j as nat, |k: int| drop_cr(raw@[k]@)),
        decreases raw@.len() - j,
    {
        let seg = raw[j].as_str();
        let n = seg.unicode_len();
        let body = if n > 0 && seg.get_char(n - 1) == '\r' {
            seg.substring_char(0, n - 1)
        } else {
            seg
        };
        proof {
            if n > 0 && seg@[n - 1] == '\r' {
                assert(body@ =~= raw@[j as int]@.drop_last());
            }
            assert(body@ == drop_cr(raw@[j as int]@));
        }
        let ghost before = texts_of(out@);
        let owned = String::from_str(body);
        out.push(owned);
        assert(texts_of(out@) =~= before.push(owned@));
        assert(texts_of(out@) =~= Seq::new((j + 1) as nat, |k: int| drop_cr(raw@[k]@)));
        j = j + 1;
    }
    if cur.unicode_len() > 0 {
        let ghost before = texts_of(out@);
        out.push(cur);
        assert(texts_of(out@) =~= before.push(segs.last()));
    }
    assert(texts_of(out@) =~= text_lines(text@));
    out
}

/// `s` shortened to its longest prefix of whole characters within `keep`
/// bytes, followed by `...`, when it takes more than `limit` bytes.
pub open spec fn abbreviated(s: Seq<char>, limit: nat, keep: nat) -> Seq<char> {
    if utf8_len(s) > limit {
        byte_prefix(s, keep) + "..."@
    } else {
        s
    }
}

proof fn lemma_utf8_len_prefix(s: Seq<char>, k: int, j: int)
    requires
        0 <= k <= j <= s.len(),
    ensures
        utf8_len(s.take(k)) <= utf8_len(s.take(j)),
    decreases j - k,
{
    if k < j {
        lemma_utf8_len_prefix(s, k, j - 1);
        assert(s.take(j).drop_last() =~= s.take(j - 1));
    }
}

/// Whether `cs` takes more than `limit` bytes in UTF-8.
pub fn wider_than(cs: &Vec<char>, limit: usize) -> (res: bool)
    ensures
        res == (utf8_len(cs@) > limit),
{
    let mut total: usize = 0;
    let mut k: usize = 0;
    while k < cs.len()
        invariant
            k <= cs@.len(),
            total == utf8_len(cs@.take(k as int)),
            total <= limit,
        decreases cs@.len() - k,
    {
        assert(cs@.take(k + 1).drop_last() =~= cs@.take(k as int));
        let w = width_of(cs[k]);
        if w > limit - total {
            proof { lemma_utf8_len_prefix(cs@, k + 1, cs@.len() as int); }
            assert(cs@.take(cs@.len() as int) =~= cs@);
            return true;
        }
        total = total + w;
        k = k + 1;
    }
    assert(cs@.take(cs@.len() as int) =~= cs@);
    false
}

/// A text that takes more than `limit` bytes is shortened to its longest
/// prefix of whole characters within `keep` bytes, followed by `...`.
pub fn abbreviate(content: &str, limit: usize, keep: usize) -> (res: String)
    requires
        keep <= limit,
    ensures
        res@ == abbreviated(content@, limit as nat, keep as nat),
{
    let cs = chars_of(content);
    if !wider_than(&cs, limit) {
        return String::from_str(content);
    }
    let mut out = String::new();
    let mut rem: usize = keep;
    let mut k: usize = 0;
    assert(cs@.skip(0) =~= cs@);
    while k < cs.len() && width_of(cs[k]) <= rem
        invariant
            k <= cs@.len(),
            out@ + byte_prefix(cs@.skip(k as int), rem as nat) == byte_prefix(cs@, keep as nat),
        decreases cs@.len() - k,
    {
        let c = cs[k];
        assert(cs@.skip(k as int)[0] == c);
        assert(cs@.skip(k as int).drop_first() =~= cs@.skip(k + 1));
        assert(out@.push(c) + byte_prefix(cs@.skip(k + 1), (rem - char_width(c)) as nat)
            =~= out@ + (seq![c] + byte_prefix(cs@.skip(k + 1), (rem - char_width(c)) as nat)));
        push_char(&mut out, c);
        rem = rem - width_of(c);
        k = k + 1;
    }
    assert(byte_prefix(cs@.skip(k as int), rem as nat) =~= Seq::<char>::empty());
    assert(out@ =~= byte_prefix(cs@, keep as nat));
    push_text(&mut out, "...");
    out
}

} // verus!
