//! Source spans and diagnostics.
//!
//! Spans are byte offsets into UTF-8 source. The renderer works on the
//! source's scalar sequence; a scalar's byte width is its UTF-8 length, so a
//! byte offset maps to the number of whole scalars that fit before it.

use vstd::prelude::*;
use crate::text::{chars_of, dec, push_all, push_char, push_dec, push_str};

verus! {

/// A half open byte range `lo..hi` into a single source file.
#[derive(Clone, Copy, Debug, PartialEq, Eq, Hash, Structural)]
pub struct Span {
    pub lo: u32,
    pub hi: u32,
}

impl Span {
    pub fn new(lo: u32, hi: u32) -> (s: Self)
        ensures
            s.lo == lo,
            s.hi == hi,
    {
        Span { lo, hi }
    }
}

/// A compile error: a message and the span it points at.
#[derive(Clone, Debug)]
pub struct Diagnostic {
    pub msg: String,
    pub span: Span,
}

/// The UTF-8 byte width of a scalar.
pub open spec fn utf8_width(c: char) -> int {
    if (c as u32) < 0x80 {
        1
    } else if (c as u32) < 0x800 {
        2
    } else if (c as u32) < 0x10000 {
        3
    } else {
        4
    }
}

/// The number of bytes the first `i` scalars of `s` occupy.
pub open spec fn byte_off(s: Seq<char>, i: int) -> int
    decreases i,
{
    if i <= 0 {
        0
    } else {
        byte_off(s, i - 1) + utf8_width(s[i - 1])
    }
}

/// Starting at scalar `i` with `budget` bytes left, the index just past the
/// last scalar that still fits whole.
pub open spec fn fit_from(s: Seq<char>, i: int, budget: int) -> int
    decreases s.len() - i,
{
    if i < 0 || i >= s.len() || utf8_width(s[i]) > budget {
        i
    } else {
        fit_from(s, i + 1, budget - utf8_width(s[i]))
    }
}

/// The number of whole scalars of `s` inside its first `off` bytes: the scalar
/// index of the nearest character boundary at or before `off`, clamped to the
/// end of the source.
pub open spec fn fit(s: Seq<char>, off: int) -> int {
    fit_from(s, 0, off)
}

/// The number of newlines among the first `k` scalars.
pub open spec fn nl_count(s: Seq<char>, k: int) -> int
    decreases k,
{
    if k <= 0 {
        0
    } else {
        nl_count(s, k - 1) + if s[k - 1] == '\n' { 1int } else { 0int }
    }
}

/// The scalar index where the line holding scalar index `k` begins.
pub open spec fn line_start(s: Seq<char>, k: int) -> int
    decreases k,
{
    if k <= 0 {
        0
    } else if s[k - 1] == '\n' {
        k
    } else {
        line_start(s, k - 1)
    }
}

/// The scalar index of the first newline at or after `k`, or the end.
pub open spec fn line_end(s: Seq<char>, k: int) -> int
    decreases s.len() - k,
{
    if k < 0 || k >= s.len() {
        s.len() as int
    } else if s[k] == '\n' {
        k
    } else {
        line_end(s, k + 1)
    }
}

/// The pad under `s[from..to]`: a tab for each tab, a space for anything else.
pub open spec fn pad_of(s: Seq<char>, from: int, to: int) -> Seq<char> {
    Seq::new((to - from) as nat, |j: int| if s[from + j] == '\t' { '\t' } else { ' ' })
}

/// A caret followed by `width - 1` tildes.
pub open spec fn carets(width: int) -> Seq<char> {
    seq!['^'] + Seq::new((width - 1) as nat, |j: int| '~')
}

/// 1 based line and scalar column of byte offset `off`.
pub open spec fn spec_line(s: Seq<char>, off: int) -> int {
    1 + nl_count(s, fit(s, off))
}

pub open spec fn spec_col(s: Seq<char>, off: int) -> int {
    fit(s, off) - line_start(s, fit(s, off)) + 1
}

/// The caret run's width: the span's scalar length from the located offset,
/// clamped to the end of the located line and at least one.
pub open spec fn caret_width(s: Seq<char>, local: int, run: int) -> int {
    let k = fit(s, local);
    let hk = fit(s, local + run);
    let ce = if hk >= k { hk } else { k };
    let ce = if ce <= line_end(s, k) { ce } else { line_end(s, k) };
    if ce - k >= 1 { ce - k } else { 1 }
}

/// The full rendering: `line:col: error: msg`, then the located source line
/// and the pad and caret run beneath it.
pub open spec fn render_spec(s: Seq<char>, msg: Seq<char>, span: Span, local: u32) -> Seq<char> {
    let k = fit(s, local as int);
    let ls = line_start(s, k);
    let le = line_end(s, k);
    let run = if span.hi >= span.lo { span.hi - span.lo } else { 0int };
    dec(spec_line(s, local as int) as nat) + ":"@ + dec(spec_col(s, local as int) as nat)
        + ": error: "@ + msg + "\n  "@ + s.subrange(ls, le) + "\n  "@ + pad_of(s, ls, k)
        + carets(caret_width(s, local as int, run))
}

pub proof fn lemma_byte_off_mono(s: Seq<char>, i: int, j: int)
    requires
        0 <= i <= j <= s.len(),
    ensures
        byte_off(s, i) + (j - i) <= byte_off(s, j),
    decreases j - i,
{
    if i < j {
        lemma_byte_off_mono(s, i, j - 1);
    }
}

proof fn lemma_fit_from_bounds(s: Seq<char>, i: int, budget: int)
    requires
        0 <= i <= s.len(),
    ensures
        i <= fit_from(s, i, budget) <= s.len(),
    decreases s.len() - i,
{
    if i < s.len() && utf8_width(s[i]) <= budget {
        lemma_fit_from_bounds(s, i + 1, budget - utf8_width(s[i]));
    }
}

/// `fit_from` from a later start with the matching remaining budget lands at
/// the same index.
proof fn lemma_fit_from_shift(s: Seq<char>, i: int, budget: int)
    requires
        0 <= i <= s.len(),
        budget >= 0,
    ensures
        fit_from(s, i, budget) >= 0,
        fit_from(s, i, budget) <= s.len(),
        byte_off(s, fit_from(s, i, budget)) - byte_off(s, i) <= budget,
        fit_from(s, i, budget) < s.len() ==> byte_off(s, fit_from(s, i, budget) + 1)
            - byte_off(s, i) > budget,
    decreases s.len() - i,
{
    if i < s.len() && utf8_width(s[i]) <= budget {
        lemma_fit_from_shift(s, i + 1, budget - utf8_width(s[i]));
    }
}

/// `fit(s, off)` is the largest scalar count whose bytes fit in `off`.
pub proof fn lemma_fit_is_boundary(s: Seq<char>, off: int)
    requires
        off >= 0,
    ensures
        0 <= fit(s, off) <= s.len(),
        byte_off(s, fit(s, off)) <= off,
        forall|j: int| fit(s, off) < j <= s.len() ==> byte_off(s, j) > off,
{
    lemma_fit_from_shift(s, 0, off);
    let k = fit(s, off);
    assert forall|j: int| k < j <= s.len() implies byte_off(s, j) > off by {
        if k < s.len() {
            lemma_byte_off_mono(s, k + 1, j);
        }
    }
}

proof fn lemma_line_start_bounds(s: Seq<char>, k: int)
    requires
        0 <= k <= s.len(),
    ensures
        0 <= line_start(s, k) <= k,
    decreases k,
{
    if k > 0 && s[k - 1] != '\n' {
        lemma_line_start_bounds(s, k - 1);
    }
}

proof fn lemma_line_end_bounds(s: Seq<char>, k: int)
    requires
        0 <= k <= s.len(),
    ensures
        k <= line_end(s, k) <= s.len(),
    decreases s.len() - k,
{
    if k < s.len() && s[k] != '\n' {
        lemma_line_end_bounds(s, k + 1);
    }
}

/// A byte offset located within its source: 1 based line and scalar column,
/// and the scalar index of the offset and of its line's start and end.
struct Loc {
    line: u64,
    col: u64,
    off: usize,
    line_start: usize,
    line_end: usize,
}

/// UTF-8 byte width of a scalar.
pub(crate) fn width_of(c: char) -> (w: u64)
    ensures
        w == utf8_width(c),
{
    let u = c as u32;
    if u < 0x80 {
        1
    } else if u < 0x800 {
        2
    } else if u < 0x10000 {
        3
    } else {
        4
    }
}

/// The number of whole scalars in the first `off` bytes of `s`.
fn fit_exec(s: &[char], off: u64) -> (k: usize)
    ensures
        k == fit(s@, off as int),
        k <= s.len(),
{
    let mut i: usize = 0;
    let mut left: u64 = off;
    proof {
        lemma_fit_from_bounds(s@, 0, off as int);
    }
    while i < s.len() && width_of(s[i]) <= left
        invariant
            0 <= i <= s.len(),
            fit(s@, off as int) == fit_from(s@, i as int, left as int),
        decreases s.len() - i,
    {
        let w = width_of(s[i]);
        left = left - w;
        i = i + 1;
    }
    i
}

/// Clamps a byte offset to at most the source length, then walks back to the
/// nearest character boundary.
pub fn clamp_boundary(src: &str, off: u64) -> (b: u64)
    ensures
        b == byte_off(src@, fit(src@, off as int)),
        b <= off,
{
    let s = chars_of(src);
    let k = fit_exec(s.as_slice(), off);
    proof {
        lemma_fit_is_boundary(s@, off as int);
    }
    let mut i: usize = 0;
    let mut b: u64 = 0;
    while i < k
        invariant
            0 <= i <= k <= s.len(),
            s@ == src@,
            byte_off(s@, k as int) <= off,
            b == byte_off(s@, i as int),
        decreases k - i,
    {
        proof {
            lemma_byte_off_mono(s@, (i + 1) as int, k as int);
        }
        b = b + width_of(s[i]);
        i = i + 1;
    }
    b
}

impl Loc {
    /// Locates a byte offset in the source scalars `s`. The offset first
    /// clamps to a character boundary, so an out of range or mid scalar
    /// offset, only reachable through a malformed span, is still located.
    fn at(s: &[char], off: u64) -> (loc: Loc)
        requires
            s.len() < u64::MAX,
        ensures
            loc.off == fit(s@, off as int),
            loc.line == spec_line(s@, off as int),
            loc.col == spec_col(s@, off as int),
            loc.line_start == line_start(s@, loc.off as int),
            loc.line_end == line_end(s@, loc.off as int),
            loc.line_start <= loc.off <= loc.line_end <= s.len(),
    {
        let k = fit_exec(s, off);
        let mut line: u64 = 1;
        let mut ls: usize = 0;
        let mut i: usize = 0;
        while i < k
            invariant
                0 <= i <= k <= s.len() < u64::MAX,
                line == 1 + nl_count(s@, i as int),
                ls == line_start(s@, i as int),
                nl_count(s@, i as int) <= i,
            decreases k - i,
        {
            if s[i] == '\n' {
                line = line + 1;
                ls = i + 1;
            }
            i = i + 1;
        }
        let mut le: usize = k;
        while le < s.len() && s[le] != '\n'
            invariant
                k <= le <= s.len(),
                line_end(s@, k as int) == line_end(s@, le as int),
            decreases s.len() - le,
        {
            le = le + 1;
        }
        proof {
            lemma_line_start_bounds(s@, k as int);
            lemma_line_end_bounds(s@, k as int);
        }
        Loc { line, col: (k - ls) as u64 + 1, off: k, line_start: ls, line_end: le }
    }
}

/// Converts a byte offset to 1 based line and column, the column a Unicode
/// scalar count rather than a byte count.
pub fn line_col(src: &str, off: u32) -> (lc: (u64, u64))
    requires
        src@.len() < u64::MAX,
    ensures
        lc.0 == spec_line(src@, off as int),
        lc.1 == spec_col(src@, off as int),
{
    let s = chars_of(src);
    let loc = Loc::at(s.as_slice(), off as u64);
    (loc.line, loc.col)
}

/// Builds the two line block under a diagnostic header: the full source line
/// the span starts on, verbatim, then a caret run beneath it.
fn caret_block(out: &mut String, s: &[char], loc: &Loc, hk: usize)
    requires
        loc.line_start <= loc.off <= loc.line_end <= s.len(),
        hk <= s.len(),
    ensures
        final(out)@ == old(out)@ + "\n  "@ + s@.subrange(loc.line_start as int, loc.line_end as int)
            + "\n  "@ + pad_of(s@, loc.line_start as int, loc.off as int) + carets({
            let ce = if hk >= loc.off { hk as int } else { loc.off as int };
            let ce = if ce <= loc.line_end { ce } else { loc.line_end as int };
            if ce - loc.off >= 1 { ce - loc.off } else { 1int }
        }),
{
    let ghost start = out@;
    push_str(out, "\n  ");
    push_all(out, &s[loc.line_start..loc.line_end]);
    push_str(out, "\n  ");
    let ghost before_pad = out@;
    let mut i = loc.line_start;
    while i < loc.off
        invariant
            loc.line_start <= i <= loc.off <= s.len(),
            out@ == before_pad + pad_of(s@, loc.line_start as int, i as int),
        decreases loc.off - i,
    {
        let c = if s[i] == '\t' { '\t' } else { ' ' };
        push_char(out, c);
        i = i + 1;
        assert(pad_of(s@, loc.line_start as int, i as int) =~= pad_of(
            s@,
            loc.line_start as int,
            i - 1,
        ).push(c));
    }
    let mut ce = if hk >= loc.off { hk } else { loc.off };
    if ce > loc.line_end {
        ce = loc.line_end;
    }
    let width = if ce - loc.off >= 1 { ce - loc.off } else { 1 };
    let ghost before_carets = out@;
    push_char(out, '^');
    let mut j: usize = 1;
    while j < width
        invariant
            1 <= j <= width,
            out@ == before_carets + carets(j as int),
        decreases width - j,
    {
        push_char(out, '~');
        j = j + 1;
        assert(carets(j as int) =~= carets(j - 1).push('~'));
    }
    assert(carets(1) =~= seq!['^']);
    assert(s@.subrange(loc.line_start as int, loc.line_end as int) =~= s@.subrange(
        loc.line_start as int,
        loc.line_end as int,
    ));
}

impl Diagnostic {
    pub fn new(msg: &str, span: Span) -> (d: Self)
        ensures
            d.msg@ == msg@,
            d.span == span,
    {
        let mut m = String::new();
        push_str(&mut m, msg);
        Diagnostic { msg: m, span }
    }

    /// Renders against source text as a header line, `line:col: error: msg`,
    /// then the source line the span starts on and a caret run under it.
    pub fn render(&self, src: &str) -> (r: String)
        requires
            src@.len() < u64::MAX,
        ensures
            r@ == render_spec(src@, self.msg@, self.span, self.span.lo),
    {
        self.render_local(src, self.span.lo)
    }

    /// Renders like `render`, taking the position from `local`, the span start
    /// with any merge base already removed. The caret run's width still comes
    /// from `span.hi - span.lo`.
    pub fn render_local(&self, src: &str, local: u32) -> (r: String)
        requires
            src@.len() < u64::MAX,
        ensures
            r@ == render_spec(src@, self.msg@, self.span, local),
    {
        let s = chars_of(src);
        let loc = Loc::at(s.as_slice(), local as u64);
        let run: u64 = if self.span.hi >= self.span.lo {
            (self.span.hi - self.span.lo) as u64
        } else {
            0
        };
        let hk = fit_exec(s.as_slice(), local as u64 + run);
        let mut out = String::new();
        push_dec(&mut out, loc.line);
        push_str(&mut out, ":");
        push_dec(&mut out, loc.col);
        push_str(&mut out, ": error: ");
        let msg = chars_of(self.msg.as_str());
        push_all(&mut out, msg.as_slice());
        caret_block(&mut out, s.as_slice(), &loc, hk);
        proof {
            let sq = s@;
            assert(sq == src@);
        }
        out
    }
}

} // verus!
