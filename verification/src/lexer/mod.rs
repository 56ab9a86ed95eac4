//! Full grammar lexer. Paradigm agnostic: it never suppresses tokens.
//!
//! The lexer walks the source's scalar sequence. Spans and diagnostic ranges
//! are byte offsets, read from a table of the byte offset of every scalar
//! boundary. `lex` produces exactly what `spec::lex_spec` describes.

pub mod token;
pub mod spec;

use vstd::prelude::*;
use crate::diag::{byte_off, lemma_byte_off_mono, utf8_width, width_of, Diagnostic, Span};
use crate::text::{chars_of, is_lit, push_all, push_char, push_str, string_of};
use token::{kind_view, Keyword, Token, TokenKind, TokenKindV};
use spec::{
    b, escape_spec, hex_digit_value, hex_value, ident_spec, is_alpha, is_digit, is_hex,
    is_ident_char, lead_byte_char, lemma_escape_end, lemma_scan_alnum, lemma_scan_digits, lemma_scan_hex,
    lemma_scan_ident, lemma_scan_to_nl, lemma_scan_to_quote, lemma_skip_trivia_end,
    lemma_step_end, lemma_string_end, lemma_lex_from_unfold, lemma_unicode_escape_end, lex_from, lex_spec,
    number_spec, one_spec, operator, quoted_spec, replacements, scan_alnum, scan_digits,
    scan_hex, scan_ident, scan_to_nl, scan_to_quote, skip_trivia_spec, step_spec,
    string_from, symbol_spec, unicode_escape_spec, valid_suffix_spec, dec_value, at, ErrV,
    EscV, LexStep, TokV,
};

verus! {

/// A diagnostic as message and byte range.
pub open spec fn err_view(d: Diagnostic) -> ErrV {
    (d.msg@, d.span.lo as int, d.span.hi as int)
}

pub open spec fn errs_view(v: Seq<Diagnostic>) -> Seq<ErrV> {
    v.map_values(|d: Diagnostic| err_view(d))
}

/// A token as kind, byte range and newline flag.
pub open spec fn tok_view(t: Token) -> TokV {
    (kind_view(t.kind), t.span.lo as int, t.span.hi as int, t.nl_before)
}

pub open spec fn toks_view(v: Seq<Token>) -> Seq<TokV> {
    v.map_values(|t: Token| tok_view(t))
}

pub open spec fn opt_kind_view(k: Option<TokenKind>) -> Option<TokenKindV> {
    match k {
        Some(k) => Some(kind_view(k)),
        None => None,
    }
}

/// Tokenizes `src` into a stream ending in `Eof`. Returns any errors collected
/// along the way; tokens are still produced past errors for recovery. Spans are
/// byte offsets, so the source's UTF-8 size must fit a span offset.
pub fn lex(src: &str) -> (r: (Vec<Token>, Vec<Diagnostic>))
    requires
        byte_off(src@, src@.len() as int) <= u32::MAX,
    ensures
        toks_view(r.0@) == lex_spec(src@).0,
        errs_view(r.1@) == lex_spec(src@).1,
{
    let lx = Lexer::new(src);
    lx.run()
}

/// What one sub-lexer consumed and produced.
struct Step {
    end: usize,
    kind: Option<TokenKind>,
    errs: Vec<Diagnostic>,
}

spec fn step_view(st: Step) -> LexStep {
    LexStep { end: st.end as int, kind: opt_kind_view(st.kind), errs: errs_view(st.errs@) }
}

/// What an escape produced.
struct Esc {
    end: usize,
    val: Option<char>,
    split: bool,
    errs: Vec<Diagnostic>,
}

spec fn esc_view(e: Esc) -> EscV {
    EscV { end: e.end as int, val: e.val, split: e.split, errs: errs_view(e.errs@) }
}

/// The source as scalars, with the byte offset of every scalar boundary.
struct Lexer {
    src: Vec<char>,
    offs: Vec<u32>,
}

fn alpha(c: char) -> (r: bool)
    ensures
        r == is_alpha(c),
{
    ('a' <= c && c <= 'z') || ('A' <= c && c <= 'Z')
}

fn digit(c: char) -> (r: bool)
    ensures
        r == is_digit(c),
{
    '0' <= c && c <= '9'
}

fn ident_char(c: char) -> (r: bool)
    ensures
        r == is_ident_char(c),
{
    alpha(c) || digit(c) || c == '_'
}

fn is_hex_char(c: char) -> (r: bool)
    ensures
        r == is_hex(c),
{
    digit(c) || ('a' <= c && c <= 'f') || ('A' <= c && c <= 'F')
}

/// Numeric value of a single ASCII hex digit; anything else is 0.
fn hex_val(c: char) -> (v: u32)
    ensures
        v == hex_digit_value(c),
        v < 16,
{
    if '0' <= c && c <= '9' {
        c as u32 - 48
    } else if 'a' <= c && c <= 'f' {
        c as u32 - 87
    } else if 'A' <= c && c <= 'F' {
        c as u32 - 55
    } else {
        0
    }
}

/// True for the integer and float type suffixes the language allows.
fn valid_suffix(s: &[char]) -> (r: bool)
    ensures
        r == valid_suffix_spec(s@),
{
    is_lit(s, "i8") || is_lit(s, "i16") || is_lit(s, "i32") || is_lit(s, "i64") || is_lit(s, "u8")
        || is_lit(s, "u16") || is_lit(s, "u32") || is_lit(s, "u64") || is_lit(s, "f32") || is_lit(
        s,
        "f64",
    )
}

/// `char::from_u32`: the scalar with code point `v`, or `None` for a surrogate
/// or a value above 0x10FFFF.
#[verifier::external_body]
fn char_from_u32(v: u32) -> (c: Option<char>)
    ensures
        c == (if (0xD800 <= v && v <= 0xDFFF) || v > 0x10FFFF {
            None
        } else {
            Some(v as char)
        }),
{
    char::from_u32(v)
}

/// `pre`, the scalar `c`, and a closing quote.
fn quote_msg(pre: &str, c: char) -> (m: String)
    ensures
        m@ == pre@ + seq![c] + "'"@,
{
    let mut m = pre.to_owned();
    push_char(&mut m, c);
    assert(m@ =~= pre@ + seq![c]);
    push_str(&mut m, "'");
    m
}

fn push_err(errs: &mut Vec<Diagnostic>, d: Diagnostic)
    ensures
        errs_view(final(errs)@) == errs_view(old(errs)@).push(err_view(d)),
{
    let ghost before = errs@;
    errs.push(d);
    assert(errs_view(errs@) =~= errs_view(before).push(err_view(d)));
}

fn append_errs(errs: &mut Vec<Diagnostic>, more: Vec<Diagnostic>)
    ensures
        errs_view(final(errs)@) == errs_view(old(errs)@) + errs_view(more@),
{
    let ghost before = errs@;
    let mut more = more;
    let ghost added = more@;
    errs.append(&mut more);
    assert(errs_view(errs@) =~= errs_view(before) + errs_view(added));
}

/// The first byte of a scalar's UTF-8 encoding, read as a Latin-1 scalar.
fn lead_byte(c: char) -> (r: char)
    ensures
        r == lead_byte_char(c),
{
    let u = c as u32;
    if u < 0x80 {
        c
    } else if u < 0x800 {
        ((0xC0 + u / 64) as u8) as char
    } else if u < 0x10000 {
        ((0xE0 + u / 4096) as u8) as char
    } else {
        ((0xF0 + u / 262144) as u8) as char
    }
}

spec fn pow16(m: nat) -> nat
    decreases m,
{
    if m == 0 {
        1
    } else {
        16 * pow16((m - 1) as nat)
    }
}

/// The single scalar punctuation tokens.
fn one(c: char) -> (k: Option<TokenKind>)
    ensures
        opt_kind_view(k) == one_spec(c),
{
    if c == '=' {
        Some(TokenKind::Assign)
    } else if c == '+' {
        Some(TokenKind::Plus)
    } else if c == '-' {
        Some(TokenKind::Minus)
    } else if c == '*' {
        Some(TokenKind::Star)
    } else if c == '/' {
        Some(TokenKind::Slash)
    } else if c == '%' {
        Some(TokenKind::Percent)
    } else if c == '<' {
        Some(TokenKind::Lt)
    } else if c == '>' {
        Some(TokenKind::Gt)
    } else if c == '!' {
        Some(TokenKind::Bang)
    } else if c == '&' {
        Some(TokenKind::Amp)
    } else if c == '|' {
        Some(TokenKind::Pipe)
    } else if c == '^' {
        Some(TokenKind::Caret)
    } else if c == '~' {
        Some(TokenKind::Tilde)
    } else if c == ':' {
        Some(TokenKind::Colon)
    } else if c == ';' {
        Some(TokenKind::Semi)
    } else if c == ',' {
        Some(TokenKind::Comma)
    } else if c == '.' {
        Some(TokenKind::Dot)
    } else if c == '@' {
        Some(TokenKind::At)
    } else if c == '(' {
        Some(TokenKind::LParen)
    } else if c == ')' {
        Some(TokenKind::RParen)
    } else if c == '{' {
        Some(TokenKind::LBrace)
    } else if c == '}' {
        Some(TokenKind::RBrace)
    } else if c == '[' {
        Some(TokenKind::LBracket)
    } else if c == ']' {
        Some(TokenKind::RBracket)
    } else {
        None
    }
}

/// Munches an operator or punctuation token: each lead scalar takes the
/// longest matching form, three scalars first, then two, then one. The greedy
/// `>>` join is split back into two `>` by the parser at nested generic closes,
/// and `**` is split at unary position.
fn munch(c: char, n: Option<char>, n3: Option<char>) -> (r: Option<(usize, TokenKind)>)
    ensures
        match (r, operator(c, n, n3)) {
            (Some((l, k)), Some((sl, sk))) => l == sl && kind_view(k) == sk,
            (None, None) => true,
            _ => false,
        },
{
    if c == ':' && n == Some('=') {
        Some((2, TokenKind::ColonEq))
    } else if c == '=' && n == Some('>') {
        Some((2, TokenKind::FatArrow))
    } else if c == '=' && n == Some('=') {
        Some((2, TokenKind::EqEq))
    } else if c == '!' && n == Some('=') {
        Some((2, TokenKind::Ne))
    } else if c == '.' && n == Some('.') && n3 == Some('=') {
        Some((3, TokenKind::DotDotEq))
    } else if c == '.' && n == Some('.') {
        Some((2, TokenKind::DotDot))
    } else if c == '<' && n == Some('<') && n3 == Some('=') {
        Some((3, TokenKind::ShlEq))
    } else if c == '<' && n == Some('<') {
        Some((2, TokenKind::Shl))
    } else if c == '<' && n == Some('=') {
        Some((2, TokenKind::Le))
    } else if c == '<' && n == Some('-') {
        Some((2, TokenKind::LArrow))
    } else if c == '>' && n == Some('>') && n3 == Some('=') {
        Some((3, TokenKind::ShrEq))
    } else if c == '>' && n == Some('>') {
        Some((2, TokenKind::Shr))
    } else if c == '>' && n == Some('=') {
        Some((2, TokenKind::Ge))
    } else if c == '&' && n == Some('&') {
        Some((2, TokenKind::AndAnd))
    } else if c == '&' && n == Some('=') {
        Some((2, TokenKind::AmpEq))
    } else if c == '|' && n == Some('|') {
        Some((2, TokenKind::OrOr))
    } else if c == '|' && n == Some('>') {
        Some((2, TokenKind::PipeGt))
    } else if c == '|' && n == Some('=') {
        Some((2, TokenKind::PipeEq))
    } else if c == '^' && n == Some('=') {
        Some((2, TokenKind::CaretEq))
    } else if c == '+' && n == Some('+') {
        Some((2, TokenKind::PlusPlus))
    } else if c == '+' && n == Some('=') {
        Some((2, TokenKind::PlusEq))
    } else if c == '-' && n == Some('>') {
        Some((2, TokenKind::Arrow))
    } else if c == '-' && n == Some('-') {
        Some((2, TokenKind::MinusMinus))
    } else if c == '-' && n == Some('=') {
        Some((2, TokenKind::MinusEq))
    } else if c == '*' && n == Some('*') {
        Some((2, TokenKind::StarStar))
    } else if c == '*' && n == Some('=') {
        Some((2, TokenKind::StarEq))
    } else if c == '/' && n == Some('=') {
        Some((2, TokenKind::SlashEq))
    } else if c == '%' && n == Some('=') {
        Some((2, TokenKind::PercentEq))
    } else {
        match one(c) {
            Some(k) => Some((1, k)),
            None => None,
        }
    }
}

impl Lexer {
    spec fn wf(&self) -> bool {
        &&& self.offs@.len() == self.src@.len() + 1
        &&& forall|i: int|
            0 <= i <= self.src@.len() ==> #[trigger] self.offs@[i] as int == byte_off(self.src@, i)
    }

    fn new(src: &str) -> (lx: Self)
        requires
            byte_off(src@, src@.len() as int) <= u32::MAX,
        ensures
            lx.wf(),
            lx.src@ == src@,
    {
        let s = chars_of(src);
        let n = s.len();
        let mut offs: Vec<u32> = Vec::new();
        let mut off: u32 = 0;
        offs.push(0);
        let mut i: usize = 0;
        while i < n
            invariant
                n == s.len(),
                s@ == src@,
                byte_off(s@, n as int) <= u32::MAX,
                i <= n,
                offs@.len() == i + 1,
                off == byte_off(s@, i as int),
                forall|k: int| 0 <= k <= i ==> #[trigger] offs@[k] as int == byte_off(s@, k),
            decreases n - i,
        {
            proof {
                lemma_byte_off_mono(s@, (i + 1) as int, n as int);
            }
            off = off + width_of(s[i]) as u32;
            offs.push(off);
            i = i + 1;
        }
        Lexer { src: s, offs }
    }

    /// A diagnostic with `msg` over the scalars `lo..hi`.
    fn error(&self, msg: String, lo: usize, hi: usize) -> (d: Diagnostic)
        requires
            self.wf(),
            lo <= self.src@.len(),
            hi <= self.src@.len(),
        ensures
            err_view(d) == (msg@, b(self.src@, lo as int), b(self.src@, hi as int)),
    {
        Diagnostic { msg, span: Span::new(self.offs[lo], self.offs[hi]) }
    }

    fn skip_trivia(&self, i: usize, nl: bool) -> (r: (usize, bool))
        requires
            self.wf(),
            i <= self.src@.len(),
        ensures
            (r.0 as int, r.1) == skip_trivia_spec(self.src@, i as int, nl),
    {
        let n = self.src.len();
        let ghost s = self.src@;
        let mut p = i;
        let mut seen = nl;
        loop
            invariant
                n == s.len(),
                s == self.src@,
                i <= p <= n,
                skip_trivia_spec(s, i as int, nl) == skip_trivia_spec(s, p as int, seen),
            ensures
                (p as int, seen) == skip_trivia_spec(s, i as int, nl),
            decreases n - p,
        {
            if p >= n {
                break;
            }
            let c = self.src[p];
            if c == '\n' {
                seen = true;
                p = p + 1;
            } else if c == ' ' || c == '\t' || c == '\r' {
                p = p + 1;
            } else if c == '/' && p + 1 < n && self.src[p + 1] == '/' {
                let ghost p0 = p;
                proof {
                    lemma_scan_to_nl(s, p as int);
                }
                while p < n && self.src[p] != '\n'
                    invariant
                        n == s.len(),
                        s == self.src@,
                        p0 <= p <= n,
                        scan_to_nl(s, p0 as int) == scan_to_nl(s, p as int),
                    decreases n - p,
                {
                    p = p + 1;
                }
                assert(skip_trivia_spec(s, p0 as int, seen) == skip_trivia_spec(s, p as int, seen));
            } else {
                break;
            }
        }
        (p, seen)
    }

    fn ident(&self, i: usize) -> (st: Step)
        requires
            self.wf(),
            i < self.src@.len(),
        ensures
            step_view(st) == ident_spec(self.src@, i as int),
    {
        let n = self.src.len();
        let ghost s = self.src@;
        let mut j = i;
        while j < n && ident_char(self.src[j])
            invariant
                n == s.len(),
                s == self.src@,
                i <= j <= n,
                scan_ident(s, i as int) == scan_ident(s, j as int),
            decreases n - j,
        {
            j = j + 1;
        }
        let text = &self.src.as_slice()[i..j];
        assert(text@ == s.subrange(i as int, j as int));
        let kind = if is_lit(text, "true") {
            TokenKind::Bool(true)
        } else if is_lit(text, "false") {
            TokenKind::Bool(false)
        } else {
            match Keyword::lookup_chars(text) {
                Some(k) => TokenKind::Kw(k),
                None => TokenKind::Ident(string_of(text)),
            }
        };
        let st = Step { end: j, kind: Some(kind), errs: Vec::new() };
        assert(errs_view(st.errs@) =~= Seq::<ErrV>::empty());
        st
    }

    /// The index just past the decimal digits starting at `i`.
    fn digits_end(&self, i: usize) -> (j: usize)
        requires
            i <= self.src@.len(),
        ensures
            j == scan_digits(self.src@, i as int),
    {
        let n = self.src.len();
        let ghost s = self.src@;
        proof {
            lemma_scan_digits(s, i as int);
        }
        let mut j = i;
        while j < n && digit(self.src[j])
            invariant
                n == s.len(),
                s == self.src@,
                i <= j <= n,
                scan_digits(s, i as int) == scan_digits(s, j as int),
            decreases n - j,
        {
            j = j + 1;
        }
        j
    }

    /// The end of a literal suffix starting at `k`: letters and digits after a
    /// leading letter, or `k` itself when no suffix follows.
    fn suffix(&self, k: usize) -> (m: usize)
        requires
            k <= self.src@.len(),
        ensures
            m == (if k < self.src@.len() && is_alpha(self.src@[k as int]) {
                scan_alnum(self.src@, k as int)
            } else {
                k as int
            }),
    {
        let n = self.src.len();
        let ghost s = self.src@;
        if !(k < n && alpha(self.src[k])) {
            return k;
        }
        let mut m = k;
        while m < n && (alpha(self.src[m]) || digit(self.src[m]))
            invariant
                n == s.len(),
                s == self.src@,
                k <= m <= n,
                scan_alnum(s, k as int) == scan_alnum(s, m as int),
            decreases n - m,
        {
            m = m + 1;
        }
        m
    }

    /// The value of the digits `i..k`, or `None` when it exceeds `i64::MAX`.
    fn int_value(&self, i: usize, k: usize) -> (v: Option<i64>)
        requires
            i <= k <= self.src@.len(),
            k == scan_digits(self.src@, i as int),
        ensures
            v == (if dec_value(self.src@, i as int, k as int) <= i64::MAX {
                Some(dec_value(self.src@, i as int, k as int) as i64)
            } else {
                None
            }),
    {
        let ghost s = self.src@;
        let mut acc: u64 = 0;
        let mut over = false;
        let mut t = i;
        while t < k
            invariant
                s == self.src@,
                i <= t <= k <= s.len(),
                scan_digits(s, t as int) == k,
                !over ==> acc == dec_value(s, i as int, t as int) && acc <= i64::MAX,
                over ==> dec_value(s, i as int, t as int) > i64::MAX,
            decreases k - t,
        {
            let c = self.src[t];
            assert(is_digit(c));
            let d = c as u32 - 48;
            assert(dec_value(s, i as int, t + 1) == dec_value(s, i as int, t as int) * 10 + d);
            if !over {
                let w: u128 = acc as u128 * 10 + d as u128;
                if w > 0x7fff_ffff_ffff_ffff {
                    over = true;
                } else {
                    acc = w as u64;
                }
            }
            t = t + 1;
        }
        if over {
            None
        } else {
            Some(acc as i64)
        }
    }

    fn number(&self, i: usize) -> (st: Step)
        requires
            self.wf(),
            i < self.src@.len(),
            is_digit(self.src@[i as int]),
        ensures
            step_view(st) == number_spec(self.src@, i as int),
    {
        let n = self.src.len();
        let ghost s = self.src@;
        proof {
            lemma_scan_digits(s, i as int);
        }
        let j = self.digits_end(i);
        let is_float = n - j > 1 && self.src[j] == '.' && digit(self.src[j + 1]);
        let k = if is_float {
            proof {
                lemma_scan_digits(s, j + 1);
            }
            self.digits_end(j + 1)
        } else {
            j
        };
        let body = &self.src.as_slice()[i..k];
        assert(body@ == s.subrange(i as int, k as int));
        let m = self.suffix(k);
        let has_suffix = m > k;
        proof {
            if k < n && is_alpha(s[k as int]) {
                lemma_scan_alnum(s, k as int);
            }
        }
        let mut errs: Vec<Diagnostic> = Vec::new();
        proof {
            assert(errs_view(errs@) =~= Seq::<ErrV>::empty());
        }
        let suffix = if has_suffix {
            let sfx = &self.src.as_slice()[k..m];
            assert(sfx@ == s.subrange(k as int, m as int));
            if !valid_suffix(sfx) {
                let mut msg = "unknown literal suffix '".to_owned();
                push_all(&mut msg, sfx);
                push_str(&mut msg, "'");
                push_err(&mut errs, self.error(msg, i, m));
            }
            Some(string_of(sfx))
        } else {
            None
        };
        let kind = if is_float {
            TokenKind::Float { text: string_of(body), suffix }
        } else {
            match self.int_value(i, k) {
                Some(v) => TokenKind::Int { val: v, suffix },
                None => {
                    let mut msg = "invalid integer literal '".to_owned();
                    push_all(&mut msg, body);
                    push_str(&mut msg, "'");
                    push_err(&mut errs, self.error(msg, i, m));
                    TokenKind::Int { val: 0, suffix }
                },
            }
        };
        let st = Step { end: m, kind: Some(kind), errs };
        assert(step_view(st) =~= number_spec(s, i as int));
        st
    }

    /// The escape whose letter is at `q`, right after a backslash.
    fn escape(&self, q: usize) -> (e: Esc)
        requires
            self.wf(),
            1 <= q <= self.src@.len(),
        ensures
            esc_view(e) == escape_spec(self.src@, q as int),
    {
        let n = self.src.len();
        let ghost s = self.src@;
        let esc = q - 1;
        let mut errs: Vec<Diagnostic> = Vec::new();
        proof {
            assert(errs_view(errs@) =~= Seq::<ErrV>::empty());
        }
        if q >= n {
            push_err(&mut errs, self.error("unknown escape '\\?'".to_owned(), esc, q));
            return Esc { end: q, val: None, split: false, errs };
        }
        let c = self.src[q];
        let val = if c == 'n' {
            Some('\n')
        } else if c == 't' {
            Some('\t')
        } else if c == 'r' {
            Some('\r')
        } else if c == '0' {
            Some('\0')
        } else if c == '\\' {
            Some('\\')
        } else if c == '"' {
            Some('"')
        } else if c == '\'' {
            Some('\'')
        } else {
            None
        };
        if val.is_some() {
            let e = Esc { end: q + 1, val, split: false, errs };
            assert(esc_view(e) =~= escape_spec(s, q as int));
            return e;
        }
        if c == 'u' {
            return self.unicode_escape(q + 1, esc);
        }
        let ascii = (c as u32) < 0x80;
        let msg = if ascii {
            quote_msg("unknown escape '\\", c)
        } else {
            quote_msg("unknown escape '\\", lead_byte(c))
        };
        proof {
            lemma_byte_off_mono(s, q as int, q + 1);
            assert(self.offs@[q as int] as int == byte_off(s, q as int));
            assert(self.offs@[q + 1] as int == byte_off(s, q + 1));
        }
        let hi: u32 = if ascii {
            self.offs[q + 1]
        } else {
            self.offs[q] + 1
        };
        let d = Diagnostic { msg, span: Span::new(self.offs[esc], hi) };
        push_err(&mut errs, d);
        let e = Esc { end: q + 1, val: None, split: !ascii, errs };
        assert(esc_view(e) =~= escape_spec(s, q as int));
        e
    }

    /// Parses the body of a `\u{...}` escape; `q` is just past the `u` and
    /// `esc` is the backslash, so every rejection spans the whole escape. The
    /// grammar is `\u{` then 1 to 6 hex digits then `}`; the value must be a
    /// Unicode scalar, so surrogates and anything above 0x10FFFF are rejected.
    fn unicode_escape(&self, q: usize, esc: usize) -> (e: Esc)
        requires
            self.wf(),
            esc < q <= self.src@.len(),
        ensures
            esc_view(e) == unicode_escape_spec(self.src@, q as int, esc as int),
    {
        let n = self.src.len();
        let ghost s = self.src@;
        let mut errs: Vec<Diagnostic> = Vec::new();
        proof {
            assert(errs_view(errs@) =~= Seq::<ErrV>::empty());
        }
        if q >= n || self.src[q] != '{' {
            push_err(&mut errs, self.error("expected '{' after \\u".to_owned(), esc, q));
            return Esc { end: q, val: None, split: false, errs };
        }
        let h0 = q + 1;
        proof {
            lemma_scan_hex(s, h0 as int);
        }
        let mut k = h0;
        let mut value: u32 = 0;
        while k < n && is_hex_char(self.src[k])
            invariant
                n == s.len(),
                s == self.src@,
                h0 <= k <= n,
                scan_hex(s, h0 as int) == scan_hex(s, k as int),
                value == hex_value(s, h0 as int, h0 + if k - h0 < 6 { k - h0 } else { 6 }),
                value < pow16((if k - h0 < 6 { k - h0 } else { 6 }) as nat),
            decreases n - k,
        {
            if k - h0 < 6 {
                proof {
                    reveal_with_fuel(pow16, 6);
                    assert(pow16((k - h0) as nat) <= 0x100000);
                }
                value = value * 16 + hex_val(self.src[k]);
            }
            k = k + 1;
        }
        if k >= n || self.src[k] != '}' {
            push_err(
                &mut errs,
                self.error("unterminated \\u escape; expected '}'".to_owned(), esc, k),
            );
            return Esc { end: k, val: None, split: false, errs };
        }
        let end = k + 1;
        let digits = k - h0;
        if digits == 0 || digits > 6 {
            push_err(
                &mut errs,
                self.error("\\u escape needs 1 to 6 hex digits".to_owned(), esc, end),
            );
            return Esc { end, val: None, split: false, errs };
        }
        if 0xD800 <= value && value <= 0xDFFF {
            push_err(
                &mut errs,
                self.error(
                    "\\u escape is a surrogate code point, not a scalar value".to_owned(),
                    esc,
                    end,
                ),
            );
            return Esc { end, val: None, split: false, errs };
        }
        if value > 0x10FFFF {
            push_err(
                &mut errs,
                self.error("\\u escape is above 0x10FFFF, the Unicode maximum".to_owned(), esc, end),
            );
            return Esc { end, val: None, split: false, errs };
        }
        let e = Esc { end, val: char_from_u32(value), split: false, errs };
        assert(esc_view(e) =~= unicode_escape_spec(s, q as int, esc as int));
        e
    }

    fn string(&self, start: usize) -> (st: Step)
        requires
            self.wf(),
            start < self.src@.len(),
        ensures
            step_view(st) == string_from(self.src@, start as int, start + 1, seq![], false, seq![]),
    {
        let n = self.src.len();
        let ghost s = self.src@;
        let ghost total = string_from(s, start as int, start + 1, seq![], false, seq![]);
        let mut p = start + 1;
        let mut buf = String::new();
        let mut invalid = false;
        let mut errs: Vec<Diagnostic> = Vec::new();
        proof {
            assert(errs_view(errs@) =~= Seq::<ErrV>::empty());
        }
        let mut end: usize = 0;
        loop
            invariant_except_break
                total == string_from(s, start as int, p as int, buf@, invalid, errs_view(errs@)),
            invariant
                self.wf(),
                n == s.len(),
                s == self.src@,
                start < p <= n,
            ensures
                start < end <= n,
                total == spec::string_finish(s, start as int, end as int, buf@, invalid, errs_view(errs@)),
            decreases n - p,
        {
            if p >= n {
                push_err(&mut errs, self.error("unterminated string literal".to_owned(), start, p));
                end = p;
                break;
            }
            let c = self.src[p];
            if c == '"' {
                end = p + 1;
                break;
            } else if c == '\\' {
                proof {
                    lemma_escape_end(s, p + 1);
                }
                let e = self.escape(p + 1);
                let Esc { end: e_end, val, split, errs: e_errs } = e;
                let ghost buf0 = buf@;
                match val {
                    Some(v) => push_char(&mut buf, v),
                    None => {},
                }
                let ghost buf1 = buf@;
                assert(buf1 =~= buf0 + (match val {
                    Some(v) => seq![v],
                    None => seq![],
                }));
                if split {
                    let w = width_of(self.src[p + 1]);
                    let mut r: u64 = 1;
                    while r < w
                        invariant
                            1 <= r <= w <= 4,
                            buf@ == buf1 + replacements(r - 1),
                        decreases w - r,
                    {
                        push_char(&mut buf, '\u{FFFD}');
                        r = r + 1;
                        assert(buf@ =~= buf1 + replacements(r - 1));
                    }
                    invalid = true;
                } else {
                    assert(buf@ =~= buf1 + Seq::<char>::empty());
                }
                append_errs(&mut errs, e_errs);
                p = e_end;
            } else {
                push_char(&mut buf, c);
                p = p + 1;
            }
        }
        if invalid {
            push_err(&mut errs, self.error("string literal is not valid UTF-8".to_owned(), start, end));
        }
        let st = Step { end, kind: Some(TokenKind::Str(buf)), errs };
        assert(step_view(st) =~= total);
        st
    }

    /// A char literal (`rune` false, opening quote at `start`) or a rune
    /// literal (`rune` true, `r'` at `start`). A rune holds any Unicode scalar,
    /// a multibyte source character or any escape; a char holds one byte.
    fn quoted(&self, start: usize, rune: bool) -> (st: Step)
        requires
            self.wf(),
            if rune { start + 1 < self.src@.len() } else { start < self.src@.len() },
        ensures
            step_view(st) == quoted_spec(self.src@, start as int, rune),
    {
        let n = self.src.len();
        let ghost s = self.src@;
        let q = if rune { start + 2 } else { start + 1 };
        let mut errs: Vec<Diagnostic> = Vec::new();
        proof {
            assert(errs_view(errs@) =~= Seq::<ErrV>::empty());
        }
        let (pos, ch, split) = if q >= n {
            let msg = if rune { "unterminated rune literal".to_owned() } else { "unterminated char literal".to_owned() };
            push_err(&mut errs, self.error(msg, start, q));
            (q, '\0', false)
        } else if self.src[q] == '\'' {
            let msg = if rune { "empty rune literal".to_owned() } else { "empty char literal".to_owned() };
            push_err(&mut errs, self.error(msg, start, q));
            (q, '\0', false)
        } else if self.src[q] == '\\' {
            proof {
                lemma_escape_end(s, q + 1);
            }
            let e = self.escape(q + 1);
            let Esc { end: e_end, val, split, errs: e_errs } = e;
            let ch = match val {
                Some(v) => v,
                None => '\0',
            };
            append_errs(&mut errs, e_errs);
            if !rune && (ch as u32) > 0x7F {
                push_err(
                    &mut errs,
                    self.error(
                        "a char is one byte; this escape does not fit, use a rune literal or a string".to_owned(),
                        start,
                        e_end,
                    ),
                );
            }
            (e_end, ch, split)
        } else if (self.src[q] as u32) < 0x80 {
            (q + 1, self.src[q], false)
        } else {
            if !rune {
                push_err(
                    &mut errs,
                    self.error("a char is one byte; use a rune literal r'...' or a string".to_owned(), start, q + 1),
                );
            }
            (q + 1, self.src[q], false)
        };
        let kind = if rune {
            TokenKind::Rune(ch)
        } else {
            TokenKind::Char(ch)
        };
        if !split && pos < n && self.src[pos] == '\'' {
            let st = Step { end: pos + 1, kind: Some(kind), errs };
            assert(step_view(st) =~= quoted_spec(s, start as int, rune));
            return st;
        }
        proof {
            lemma_scan_to_quote(s, pos as int);
        }
        let mut k = pos;
        while k < n && self.src[k] != '\'' && self.src[k] != '\n'
            invariant
                n == s.len(),
                s == self.src@,
                pos <= k <= n,
                scan_to_quote(s, pos as int) == scan_to_quote(s, k as int),
            decreases n - k,
        {
            k = k + 1;
        }
        let end = if k < n && self.src[k] == '\'' {
            k + 1
        } else {
            k
        };
        let msg = if rune {
            "rune literal must contain exactly one character".to_owned()
        } else {
            "char literal must contain exactly one character".to_owned()
        };
        push_err(&mut errs, self.error(msg, start, end));
        let st = Step { end, kind: Some(kind), errs };
        assert(step_view(st) =~= quoted_spec(s, start as int, rune));
        st
    }

    fn symbol(&self, start: usize) -> (st: Step)
        requires
            self.wf(),
            start < self.src@.len(),
        ensures
            step_view(st) == symbol_spec(self.src@, start as int),
    {
        let n = self.src.len();
        let ghost s = self.src@;
        let c = self.src[start];
        let mut errs: Vec<Diagnostic> = Vec::new();
        proof {
            assert(errs_view(errs@) =~= Seq::<ErrV>::empty());
        }
        let found = if (c as u32) >= 0x80 {
            None
        } else {
            let n1 = if n - start > 1 { Some(self.src[start + 1]) } else { None };
            let n3 = if n - start > 2 { Some(self.src[start + 2]) } else { None };
            assert(n1 == at(s, start + 1));
            assert(n3 == at(s, start + 2));
            munch(c, n1, n3)
        };
        match found {
            Some((len, kind)) => {
                let st = Step { end: start + len, kind: Some(kind), errs };
                assert(step_view(st) =~= symbol_spec(s, start as int));
                st
            },
            None => {
                let msg = quote_msg("unexpected character '", c);
                push_err(&mut errs, self.error(msg, start, start + 1));
                let st = Step { end: start + 1, kind: None, errs };
                assert(step_view(st) =~= symbol_spec(s, start as int));
                st
            },
        }
    }

    /// The sub-lexer a token start dispatches to.
    fn dispatch(&self, j: usize) -> (st: Step)
        requires
            self.wf(),
            j < self.src@.len(),
        ensures
            step_view(st) == step_spec(self.src@, j as int),
    {
        let n = self.src.len();
        let c = self.src[j];
        if c == 'r' && j + 1 < n && self.src[j + 1] == '\'' {
            self.quoted(j, true)
        } else if alpha(c) || c == '_' {
            self.ident(j)
        } else if digit(c) {
            self.number(j)
        } else if c == '"' {
            self.string(j)
        } else if c == '\'' {
            self.quoted(j, false)
        } else {
            self.symbol(j)
        }
    }

    fn run(&self) -> (r: (Vec<Token>, Vec<Diagnostic>))
        requires
            self.wf(),
        ensures
            toks_view(r.0@) == lex_spec(self.src@).0,
            errs_view(r.1@) == lex_spec(self.src@).1,
    {
        let n = self.src.len();
        let ghost s = self.src@;
        let ghost total = lex_from(s, 0, false);
        let mut tokens: Vec<Token> = Vec::new();
        let mut errors: Vec<Diagnostic> = Vec::new();
        let mut i: usize = 0;
        let mut nl = false;
        proof {
            assert(toks_view(tokens@) =~= Seq::<TokV>::empty());
            assert(errs_view(errors@) =~= Seq::<ErrV>::empty());
            assert(total.0 =~= toks_view(tokens@) + lex_from(s, 0, false).0);
            assert(total.1 =~= errs_view(errors@) + lex_from(s, 0, false).1);
        }
        loop
            invariant_except_break
                total.0 == toks_view(tokens@) + lex_from(s, i as int, nl).0,
                total.1 == errs_view(errors@) + lex_from(s, i as int, nl).1,
            invariant
                self.wf(),
                n == s.len(),
                s == self.src@,
                i <= n,
            ensures
                total.0 == toks_view(tokens@),
                total.1 == errs_view(errors@),
            decreases n - i,
        {
            proof {
                lemma_skip_trivia_end(s, i as int, nl);
                lemma_lex_from_unfold(s, i as int, nl);
            }
            let (j, nl2) = self.skip_trivia(i, nl);
            let ghost before_t = tokens@;
            let ghost before_e = errors@;
            if j >= n {
                let t = Token { kind: TokenKind::Eof, span: Span::new(self.offs[j], self.offs[j]), nl_before: nl2 };
                tokens.push(t);
                proof {
                    assert(toks_view(tokens@) =~= toks_view(before_t).push(tok_view(t)));
                    assert(toks_view(tokens@) =~= toks_view(before_t) + lex_from(s, i as int, nl).0);
                    assert(errs_view(errors@) =~= errs_view(before_e) + lex_from(s, i as int, nl).1);
                }
                break;
            }
            let st = self.dispatch(j);
            let Step { end, kind, errs } = st;
            let had = kind.is_some();
            let ghost rest = lex_from(s, end as int, if had { false } else { nl2 });
            match kind {
                Some(k) => {
                    let t = Token { kind: k, span: Span::new(self.offs[j], self.offs[end]), nl_before: nl2 };
                    tokens.push(t);
                    proof {
                        assert(toks_view(tokens@) =~= toks_view(before_t) + seq![tok_view(t)]);
                    }
                },
                None => {
                    proof {
                        assert(toks_view(tokens@) =~= toks_view(before_t) + Seq::<TokV>::empty());
                    }
                },
            }
            append_errs(&mut errors, errs);
            proof {
                assert(toks_view(tokens@) + rest.0 =~= toks_view(before_t) + lex_from(s, i as int, nl).0);
                assert(errs_view(errors@) + rest.1 =~= errs_view(before_e) + lex_from(s, i as int, nl).1);
            }
            nl = if had { false } else { nl2 };
            i = end;
        }
        (tokens, errors)
    }
}

} // verus!
