//! Pre scan pass: a cheap line oriented sweep collecting `@paradigm` and
//! `@import` directives before lexing and parsing.

use vstd::prelude::*;
use crate::diag::{byte_off, lemma_byte_off_mono, utf8_width, width_of, Diagnostic, Span};
use crate::text::{chars_of, is_lit, push_all, push_str, string_of};

verus! {

/// A paradigm a file may declare. Default when none is present is `Procedural`.
#[derive(Clone, Copy, Debug, PartialEq, Eq, Structural)]
pub enum Paradigm {
    Functional,
    Procedural,
    Oop,
}

/// The paradigm a directive argument names.
pub open spec fn spec_paradigm(s: Seq<char>) -> Option<Paradigm> {
    if s == "functional"@ {
        Some(Paradigm::Functional)
    } else if s == "procedural"@ {
        Some(Paradigm::Procedural)
    } else if s == "oop"@ {
        Some(Paradigm::Oop)
    } else {
        None
    }
}

impl Paradigm {
    pub fn lookup(s: &str) -> (p: Option<Paradigm>)
        ensures
            p == spec_paradigm(s@),
    {
        let cs = chars_of(s);
        Self::lookup_chars(cs.as_slice())
    }

    fn lookup_chars(cs: &[char]) -> (p: Option<Paradigm>)
        ensures
            p == spec_paradigm(cs@),
    {
        if is_lit(cs, "functional") {
            Some(Paradigm::Functional)
        } else if is_lit(cs, "procedural") {
            Some(Paradigm::Procedural)
        } else if is_lit(cs, "oop") {
            Some(Paradigm::Oop)
        } else {
            None
        }
    }
}

/// The directives collected from the top of a file.
#[derive(Clone, Debug, PartialEq)]
pub struct Prescan {
    pub paradigms: Vec<Paradigm>,
    pub imports: Vec<String>,
}

impl Prescan {
    /// The effective paradigm set, defaulting to `Procedural` when none are declared.
    pub fn effective(&self) -> (r: Vec<Paradigm>)
        ensures
            r@ == if self.paradigms@.len() == 0 {
                seq![Paradigm::Procedural]
            } else {
                self.paradigms@
            },
    {
        if self.paradigms.len() == 0 {
            let mut v: Vec<Paradigm> = Vec::new();
            v.push(Paradigm::Procedural);
            assert(v@ =~= seq![Paradigm::Procedural]);
            v
        } else {
            let mut v: Vec<Paradigm> = Vec::new();
            let mut i: usize = 0;
            while i < self.paradigms.len()
                invariant
                    0 <= i <= self.paradigms.len(),
                    v@ == self.paradigms@.take(i as int),
                decreases self.paradigms.len() - i,
            {
                v.push(self.paradigms[i]);
                i = i + 1;
                assert(v@ =~= self.paradigms@.take(i as int));
            }
            assert(self.paradigms@.take(i as int) =~= self.paradigms@);
            v
        }
    }
}

/// Unicode `White_Space`, the set `char::is_whitespace` and `str::trim` use.
pub open spec fn is_ws(c: char) -> bool {
    let u = c as u32;
    (0x09 <= u && u <= 0x0D) || u == 0x20 || u == 0x85 || u == 0xA0 || u == 0x1680 || (0x2000 <= u
        && u <= 0x200A) || u == 0x2028 || u == 0x2029 || u == 0x202F || u == 0x205F || u == 0x3000
}

/// The first index in `[a, b)` whose scalar is not white space, else `b`.
pub open spec fn skip_ws(s: Seq<char>, a: int, b: int) -> int
    decreases b - a,
{
    if a >= b || !is_ws(s[a]) {
        a
    } else {
        skip_ws(s, a + 1, b)
    }
}

/// One past the last index in `[a, b)` whose scalar is not white space, else `a`.
pub open spec fn back_ws(s: Seq<char>, a: int, b: int) -> int
    decreases b - a,
{
    if b <= a || !is_ws(s[b - 1]) {
        b
    } else {
        back_ws(s, a, b - 1)
    }
}

/// The first white space index in `[a, b)`, else `b`.
pub open spec fn find_ws(s: Seq<char>, a: int, b: int) -> int
    decreases b - a,
{
    if a >= b || is_ws(s[a]) {
        a
    } else {
        find_ws(s, a + 1, b)
    }
}

/// The first index in `[a, b)` that starts a `//`, else `b`.
pub open spec fn find_slashes(s: Seq<char>, a: int, b: int) -> int
    decreases b - a,
{
    if a + 1 >= b {
        b
    } else if s[a] == '/' && s[a + 1] == '/' {
        a
    } else {
        find_slashes(s, a + 1, b)
    }
}

/// The first index in `[a, b)` that is not a double quote, else `b`.
pub open spec fn skip_quotes(s: Seq<char>, a: int, b: int) -> int
    decreases b - a,
{
    if a >= b || s[a] != '"' {
        a
    } else {
        skip_quotes(s, a + 1, b)
    }
}

/// One past the last index in `[a, b)` that is not a double quote, else `a`.
pub open spec fn back_quotes(s: Seq<char>, a: int, b: int) -> int
    decreases b - a,
{
    if b <= a || s[b - 1] != '"' {
        b
    } else {
        back_quotes(s, a, b - 1)
    }
}

/// The first newline at or after `a`, else the end.
pub open spec fn next_nl(s: Seq<char>, a: int) -> int
    decreases s.len() - a,
{
    if a < 0 || a >= s.len() || s[a] == '\n' {
        if a < 0 { 0 } else { a }
    } else {
        next_nl(s, a + 1)
    }
}

/// The end of the line content starting at `a`: a `\r` right before the
/// newline belongs to the terminator, not the line.
pub open spec fn content_end(s: Seq<char>, a: int) -> int {
    let b = next_nl(s, a);
    if b < s.len() && b > a && s[b - 1] == '\r' {
        b - 1
    } else {
        b
    }
}

/// What one source line contributes to the scan.
pub enum LineStep {
    Skip,
    Stop,
    Paradigm(Paradigm),
    /// An import path, `s[from..to]`.
    Import(int, int),
    Error(Seq<char>),
}

/// The effect of the line whose content is `s[a..r]`.
pub open spec fn line_step(s: Seq<char>, a: int, r: int) -> LineStep {
    let t0 = skip_ws(s, a, r);
    let t1 = back_ws(s, t0, r);
    if t0 == t1 || (t1 - t0 >= 2 && s[t0] == '/' && s[t0 + 1] == '/') {
        LineStep::Skip
    } else {
        let h1 = find_ws(s, t0, t1);
        let head = s.subrange(t0, h1);
        let rs = if h1 < t1 { h1 + 1 } else { t1 };
        let c = find_slashes(s, rs, t1);
        let u0 = skip_ws(s, rs, c);
        let u1 = back_ws(s, u0, c);
        let rest = s.subrange(u0, u1);
        if head == "@paradigm"@ {
            match spec_paradigm(rest) {
                Some(p) => LineStep::Paradigm(p),
                None => LineStep::Error("unknown paradigm '"@ + rest + "'"@),
            }
        } else if head == "@import"@ {
            let q0 = skip_quotes(s, u0, u1);
            let q1 = back_quotes(s, q0, u1);
            if q0 == q1 {
                LineStep::Error("empty import path"@)
            } else {
                LineStep::Import(q0, q1)
            }
        } else if head[0] == '@' {
            LineStep::Error("unknown directive '"@ + head + "'"@)
        } else {
            LineStep::Stop
        }
    }
}

/// The mathematical form of a scan: paradigms, imports, and diagnostics as
/// (message, span) pairs.
pub struct ScanV {
    pub paradigms: Seq<Paradigm>,
    pub imports: Seq<Seq<char>>,
    pub errors: Seq<(Seq<char>, Span)>,
}

/// Scans the lines of `s` starting with the one at scalar index `a`.
pub open spec fn scan_from(s: Seq<char>, a: int) -> ScanV
    decreases s.len() + 1 - a,
{
    if a < 0 || a >= s.len() {
        ScanV { paradigms: seq![], imports: seq![], errors: seq![] }
    } else {
        let r = content_end(s, a);
        let next = next_nl(s, a) + 1;
        proof {
            lemma_next_nl(s, a);
        }
        let span = Span { lo: byte_off(s, a) as u32, hi: byte_off(s, r) as u32 };
        let rest = scan_from(s, next);
        match line_step(s, a, r) {
            LineStep::Skip => rest,
            LineStep::Stop => ScanV { paradigms: seq![], imports: seq![], errors: seq![] },
            LineStep::Paradigm(p) => ScanV { paradigms: seq![p] + rest.paradigms, ..rest },
            LineStep::Import(q0, q1) => ScanV {
                imports: seq![s.subrange(q0, q1)] + rest.imports,
                ..rest
            },
            LineStep::Error(m) => ScanV { errors: seq![(m, span)] + rest.errors, ..rest },
        }
    }
}

pub open spec fn diags_view(v: Seq<Diagnostic>) -> Seq<(Seq<char>, Span)> {
    v.map_values(|d: Diagnostic| (d.msg@, d.span))
}

pub open spec fn strings_view(v: Seq<String>) -> Seq<Seq<char>> {
    v.map_values(|s: String| s@)
}

proof fn lemma_skip_ws(s: Seq<char>, a: int, b: int)
    requires
        0 <= a <= b <= s.len(),
    ensures
        a <= skip_ws(s, a, b) <= b,
    decreases b - a,
{
    if a < b && is_ws(s[a]) {
        lemma_skip_ws(s, a + 1, b);
    }
}

proof fn lemma_skip_ws_stops(s: Seq<char>, a: int, b: int)
    requires
        0 <= a <= b <= s.len(),
        skip_ws(s, a, b) < b,
    ensures
        !is_ws(s[skip_ws(s, a, b)]),
    decreases b - a,
{
    if a < b && is_ws(s[a]) {
        lemma_skip_ws_stops(s, a + 1, b);
    }
}

proof fn lemma_find_ws_bounds(s: Seq<char>, a: int, b: int)
    requires
        0 <= a <= b <= s.len(),
    ensures
        a <= find_ws(s, a, b) <= b,
    decreases b - a,
{
    if a < b && !is_ws(s[a]) {
        lemma_find_ws_bounds(s, a + 1, b);
    }
}

proof fn lemma_back_ws(s: Seq<char>, a: int, b: int)
    requires
        0 <= a <= b <= s.len(),
    ensures
        a <= back_ws(s, a, b) <= b,
    decreases b - a,
{
    if a < b && is_ws(s[b - 1]) {
        lemma_back_ws(s, a, b - 1);
    }
}

fn is_ws_exec(c: char) -> (r: bool)
    ensures
        r == is_ws(c),
{
    let u = c as u32;
    (0x09 <= u && u <= 0x0D) || u == 0x20 || u == 0x85 || u == 0xA0 || u == 0x1680 || (0x2000 <= u
        && u <= 0x200A) || u == 0x2028 || u == 0x2029 || u == 0x202F || u == 0x205F || u == 0x3000
}

fn skip_ws_exec(s: &[char], a: usize, b: usize) -> (r: usize)
    requires
        a <= b <= s.len(),
    ensures
        r == skip_ws(s@, a as int, b as int),
        a <= r <= b,
{
    let mut i = a;
    while i < b && is_ws_exec(s[i])
        invariant
            a <= i <= b <= s.len(),
            skip_ws(s@, a as int, b as int) == skip_ws(s@, i as int, b as int),
        decreases b - i,
    {
        i = i + 1;
    }
    i
}

fn back_ws_exec(s: &[char], a: usize, b: usize) -> (r: usize)
    requires
        a <= b <= s.len(),
    ensures
        r == back_ws(s@, a as int, b as int),
        a <= r <= b,
{
    let mut j = b;
    while j > a && is_ws_exec(s[j - 1])
        invariant
            a <= j <= b <= s.len(),
            back_ws(s@, a as int, b as int) == back_ws(s@, a as int, j as int),
        decreases j - a,
    {
        j = j - 1;
    }
    j
}

fn find_ws_exec(s: &[char], a: usize, b: usize) -> (r: usize)
    requires
        a <= b <= s.len(),
    ensures
        r == find_ws(s@, a as int, b as int),
        a <= r <= b,
{
    let mut i = a;
    while i < b && !is_ws_exec(s[i])
        invariant
            a <= i <= b <= s.len(),
            find_ws(s@, a as int, b as int) == find_ws(s@, i as int, b as int),
        decreases b - i,
    {
        i = i + 1;
    }
    i
}

fn find_slashes_exec(s: &[char], a: usize, b: usize) -> (r: usize)
    requires
        a <= b <= s.len(),
    ensures
        r == find_slashes(s@, a as int, b as int),
        a <= r <= b,
{
    let mut i = a;
    while i < b && b - i > 1
        invariant
            a <= i <= b <= s.len(),
            find_slashes(s@, a as int, b as int) == find_slashes(s@, i as int, b as int),
        decreases b - i,
    {
        if s[i] == '/' && s[i + 1] == '/' {
            return i;
        }
        i = i + 1;
    }
    b
}

fn skip_quotes_exec(s: &[char], a: usize, b: usize) -> (r: usize)
    requires
        a <= b <= s.len(),
    ensures
        r == skip_quotes(s@, a as int, b as int),
        a <= r <= b,
{
    let mut i = a;
    while i < b && s[i] == '"'
        invariant
            a <= i <= b <= s.len(),
            skip_quotes(s@, a as int, b as int) == skip_quotes(s@, i as int, b as int),
        decreases b - i,
    {
        i = i + 1;
    }
    i
}

fn back_quotes_exec(s: &[char], a: usize, b: usize) -> (r: usize)
    requires
        a <= b <= s.len(),
    ensures
        r == back_quotes(s@, a as int, b as int),
        a <= r <= b,
{
    let mut j = b;
    while j > a && s[j - 1] == '"'
        invariant
            a <= j <= b <= s.len(),
            back_quotes(s@, a as int, b as int) == back_quotes(s@, a as int, j as int),
        decreases j - a,
    {
        j = j - 1;
    }
    j
}

/// Builds `pre + s[a..b] + post` as a diagnostic message.
fn quoted_msg(pre: &str, s: &[char], a: usize, b: usize, post: &str) -> (m: String)
    requires
        a <= b <= s.len(),
    ensures
        m@ == pre@ + s@.subrange(a as int, b as int) + post@,
{
    let mut m = String::new();
    push_str(&mut m, pre);
    push_all(&mut m, &s[a..b]);
    push_str(&mut m, post);
    m
}

/// Computes the step of the line whose content is `s[a..r]`, as its exec form.
fn line_step_exec(s: &[char], a: usize, r: usize) -> (st: (u8, Option<Paradigm>, usize, usize, Option<String>))
    requires
        a <= r <= s.len(),
    ensures
        match line_step(s@, a as int, r as int) {
            LineStep::Skip => st.0 == 0,
            LineStep::Stop => st.0 == 1,
            LineStep::Paradigm(p) => st.0 == 2 && st.1 == Some(p),
            LineStep::Import(q0, q1) => st.0 == 3 && st.2 == q0 && st.3 == q1 && a <= q0 <= q1 <= r,
            LineStep::Error(m) => st.0 == 4 && (st.4 matches Some(ms) && ms@ == m),
        },
{
    let t0 = skip_ws_exec(s, a, r);
    let t1 = back_ws_exec(s, t0, r);
    proof {
        if t0 < t1 {
            lemma_skip_ws_stops(s@, a as int, r as int);
            lemma_find_ws_bounds(s@, t0 + 1, t1 as int);
        }
    }
    if t0 == t1 || (t1 - t0 >= 2 && s[t0] == '/' && s[t0 + 1] == '/') {
        return (0, None, 0, 0, None);
    }
    let h1 = find_ws_exec(s, t0, t1);
    let rs = if h1 < t1 { h1 + 1 } else { t1 };
    let c = find_slashes_exec(s, rs, t1);
    let u0 = skip_ws_exec(s, rs, c);
    let u1 = back_ws_exec(s, u0, c);
    let head = &s[t0..h1];
    let rest = &s[u0..u1];
    assert(head@ == s@.subrange(t0 as int, h1 as int));
    assert(rest@ == s@.subrange(u0 as int, u1 as int));
    if is_lit(head, "@paradigm") {
        match Paradigm::lookup_chars(rest) {
            Some(p) => (2, Some(p), 0, 0, None),
            None => (4, None, 0, 0, Some(quoted_msg("unknown paradigm '", s, u0, u1, "'"))),
        }
    } else if is_lit(head, "@import") {
        let q0 = skip_quotes_exec(s, u0, u1);
        let q1 = back_quotes_exec(s, q0, u1);
        if q0 == q1 {
            let mut m = String::new();
            push_str(&mut m, "empty import path");
            assert(m@ =~= "empty import path"@);
            (4, None, 0, 0, Some(m))
        } else {
            (3, None, q0, q1, None)
        }
    } else if h1 > t0 && s[t0] == '@' {
        (4, None, 0, 0, Some(quoted_msg("unknown directive '", s, t0, h1, "'")))
    } else {
        proof {
            if h1 == t0 {
                assert(!is_ws(s@[t0 as int]));
            }
        }
        (1, None, 0, 0, None)
    }
}

pub proof fn lemma_next_nl(s: Seq<char>, a: int)
    requires
        0 <= a <= s.len(),
    ensures
        a <= next_nl(s, a) <= s.len(),
    decreases s.len() - a,
{
    if a < s.len() && s[a] != '\n' {
        lemma_next_nl(s, a + 1);
    }
}

/// Collects directives from the leading lines of a file. Scanning stops at the
/// first line that is neither blank, a comment, nor a directive. Reports unknown
/// paradigms and unknown `@` directives as diagnostics. Spans are byte offsets,
/// so the source's UTF-8 size must fit a span offset.
pub fn scan(src: &str) -> (r: (Prescan, Vec<Diagnostic>))
    requires
        byte_off(src@, src@.len() as int) <= u32::MAX,
    ensures
        r.0.paradigms@ == scan_from(src@, 0).paradigms,
        strings_view(r.0.imports@) == scan_from(src@, 0).imports,
        diags_view(r.1@) == scan_from(src@, 0).errors,
{
    let s = chars_of(src);
    let n = s.len();
    let mut paradigms: Vec<Paradigm> = Vec::new();
    let mut imports: Vec<String> = Vec::new();
    let mut errors: Vec<Diagnostic> = Vec::new();
    let mut a: usize = 0;
    let mut off: u32 = 0;
    let ghost total = scan_from(s@, 0);
    loop
        invariant
            s@ == src@,
            n == s.len(),
            0 <= a <= n,
            off == byte_off(s@, a as int),
            byte_off(s@, n as int) <= u32::MAX,
            total == scan_from(s@, 0),
            total.paradigms == paradigms@ + scan_from(s@, a as int).paradigms,
            total.imports == strings_view(imports@) + scan_from(s@, a as int).imports,
            total.errors == diags_view(errors@) + scan_from(s@, a as int).errors,
        ensures
            total.paradigms == paradigms@,
            total.imports == strings_view(imports@),
            total.errors == diags_view(errors@),
        decreases n - a,
    {
        if a >= n {
            proof {
                assert(paradigms@ + Seq::<Paradigm>::empty() =~= paradigms@);
                assert(strings_view(imports@) + Seq::<Seq<char>>::empty() =~= strings_view(imports@));
                assert(diags_view(errors@) + Seq::<(Seq<char>, Span)>::empty() =~= diags_view(errors@));
            }
            break;
        }
        // Find this line's newline and the byte offset of each boundary.
        let ghost sq = s@;
        let mut b = a;
        let mut boff = off;
        proof {
            lemma_byte_off_mono(sq, a as int, n as int);
        }
        while b < n && s[b] != '\n'
            invariant
                a <= b <= n == s.len(),
                sq == s@,
                next_nl(sq, a as int) == next_nl(sq, b as int),
                boff == byte_off(sq, b as int),
                byte_off(sq, n as int) <= u32::MAX,
            decreases n - b,
        {
            proof {
                lemma_byte_off_mono(sq, (b + 1) as int, n as int);
            }
            let w = width_of(s[b]);
            boff = boff + w as u32;
            b = b + 1;
        }
        let r = if b < n && b > a && s[b - 1] == '\r' { b - 1 } else { b };
        proof {
            if r < b {
                assert(sq[r as int] == '\r');
                assert(utf8_width(sq[r as int]) == 1);
                assert(byte_off(sq, b as int) == byte_off(sq, r as int) + utf8_width(sq[r as int]));
                lemma_byte_off_mono(sq, 0, r as int);
                assert(boff >= 1);
            }
        }
        let roff = if r < b { boff - 1 } else { boff };
        let span = Span::new(off, roff);
        let st = line_step_exec(s.as_slice(), a, r);
        let ghost rest_before = scan_from(sq, (b + 1) as int);
        proof {
            assert(next_nl(sq, b as int) == b);
            assert(next_nl(sq, a as int) == b);
            assert(content_end(sq, a as int) == r);
        }
        if st.0 == 1 {
            proof {
                assert(scan_from(sq, a as int) == ScanV { paradigms: seq![], imports: seq![], errors: seq![] });
                assert(paradigms@ + Seq::<Paradigm>::empty() =~= paradigms@);
                assert(strings_view(imports@) + Seq::<Seq<char>>::empty() =~= strings_view(imports@));
                assert(diags_view(errors@) + Seq::<(Seq<char>, Span)>::empty() =~= diags_view(errors@));
            }
            break;
        } else if st.0 == 2 {
            match st.1 {
                Some(p) => {
                    paradigms.push(p);
                },
                None => {},
            }
        } else if st.0 == 3 {
            let ghost old_imps = imports@;
            imports.push(string_of(&s.as_slice()[st.2..st.3]));
            proof {
                assert(strings_view(imports@) =~= strings_view(old_imps).push(
                    sq.subrange(st.2 as int, st.3 as int),
                ));
            }
        } else if st.0 == 4 {
            match st.4 {
                Some(m) => {
                    let ghost old_errs = errors@;
                    errors.push(Diagnostic { msg: m, span });
                    proof {
                        assert(diags_view(errors@) =~= diags_view(old_errs).push((m@, span)));
                    }
                },
                None => {},
            }
        }
        proof {
            if r < b {
                assert(utf8_width(sq[r as int]) == 1);
                assert(byte_off(sq, b as int) == byte_off(sq, r as int) + 1);
            }
            assert(span == Span { lo: byte_off(sq, a as int) as u32, hi: byte_off(sq, r as int) as u32 });
        }
        if b < n {
            proof {
                lemma_byte_off_mono(sq, (b + 1) as int, n as int);
            }
            off = boff + 1;
            a = b + 1;
        } else {
            off = boff;
            a = n;
        }
        proof {
            assert(paradigms@.len() >= 0);
            assert(scan_from(sq, a as int) == rest_before) by {
                if b >= n {
                    assert(scan_from(sq, (b + 1) as int) == scan_from(sq, a as int));
                }
            }
            assert(total.paradigms =~= paradigms@ + scan_from(s@, a as int).paradigms);
            assert(total.imports =~= strings_view(imports@) + scan_from(s@, a as int).imports);
            assert(total.errors =~= diags_view(errors@) + scan_from(s@, a as int).errors);
        }
    }
    (Prescan { paradigms, imports }, errors)
}

} // verus!
