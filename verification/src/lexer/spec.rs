//! The token grammar, stated over the source's scalar sequence. Spans and
//! diagnostic ranges are byte offsets; `byte_off(s, i)` is the byte offset of
//! scalar index `i`.

use vstd::prelude::*;
use crate::diag::{byte_off, lemma_byte_off_mono, utf8_width};
use super::token::{spec_keyword, Keyword, TokenKindV};

verus! {

pub open spec fn is_alpha(c: char) -> bool {
    ('a' <= c && c <= 'z') || ('A' <= c && c <= 'Z')
}

pub open spec fn is_digit(c: char) -> bool {
    '0' <= c && c <= '9'
}

pub open spec fn is_ident_char(c: char) -> bool {
    is_alpha(c) || is_digit(c) || c == '_'
}

pub open spec fn is_hex(c: char) -> bool {
    is_digit(c) || ('a' <= c && c <= 'f') || ('A' <= c && c <= 'F')
}

/// The value of a hex digit; anything else is 0.
pub open spec fn hex_digit_value(c: char) -> nat {
    if is_digit(c) {
        (c as nat - 48) as nat
    } else if 'a' <= c && c <= 'f' {
        (c as nat - 87) as nat
    } else if 'A' <= c && c <= 'F' {
        (c as nat - 55) as nat
    } else {
        0
    }
}

/// The first index at or after `i` whose scalar fails `p`.
pub open spec fn scan_ident(s: Seq<char>, i: int) -> int
    decreases s.len() - i,
{
    if 0 <= i < s.len() && is_ident_char(s[i]) {
        scan_ident(s, i + 1)
    } else {
        i
    }
}

pub open spec fn scan_digits(s: Seq<char>, i: int) -> int
    decreases s.len() - i,
{
    if 0 <= i < s.len() && is_digit(s[i]) {
        scan_digits(s, i + 1)
    } else {
        i
    }
}

pub open spec fn scan_alnum(s: Seq<char>, i: int) -> int
    decreases s.len() - i,
{
    if 0 <= i < s.len() && (is_alpha(s[i]) || is_digit(s[i])) {
        scan_alnum(s, i + 1)
    } else {
        i
    }
}

pub open spec fn scan_hex(s: Seq<char>, i: int) -> int
    decreases s.len() - i,
{
    if 0 <= i < s.len() && is_hex(s[i]) {
        scan_hex(s, i + 1)
    } else {
        i
    }
}

/// The first index at or after `i` holding a quote or a newline, else the end.
pub open spec fn scan_to_quote(s: Seq<char>, i: int) -> int
    decreases s.len() - i,
{
    if 0 <= i < s.len() && s[i] != '\'' && s[i] != '\n' {
        scan_to_quote(s, i + 1)
    } else {
        i
    }
}

/// The first index at or after `i` holding a newline, else the end.
pub open spec fn scan_to_nl(s: Seq<char>, i: int) -> int
    decreases s.len() - i,
{
    if 0 <= i < s.len() && s[i] != '\n' {
        scan_to_nl(s, i + 1)
    } else {
        i
    }
}

/// The value of the decimal digits `s[a..b]`.
pub open spec fn dec_value(s: Seq<char>, a: int, b: int) -> nat
    decreases b - a,
{
    if b <= a {
        0
    } else {
        dec_value(s, a, b - 1) * 10 + ((s[b - 1] as nat) - 48) as nat
    }
}

/// The value of the hex digits `s[a..b]`.
pub open spec fn hex_value(s: Seq<char>, a: int, b: int) -> nat
    decreases b - a,
{
    if b <= a {
        0
    } else {
        hex_value(s, a, b - 1) * 16 + hex_digit_value(s[b - 1])
    }
}

/// The integer and float type suffixes the language allows.
pub open spec fn valid_suffix_spec(s: Seq<char>) -> bool {
    s == "i8"@ || s == "i16"@ || s == "i32"@ || s == "i64"@ || s == "u8"@ || s == "u16"@ || s
        == "u32"@ || s == "u64"@ || s == "f32"@ || s == "f64"@
}

/// The first byte of a scalar's UTF-8 encoding, read as a Latin-1 scalar.
pub open spec fn lead_byte_char(c: char) -> char {
    let u = c as u32;
    if u < 0x80 {
        c
    } else if u < 0x800 {
        ((0xC0 + u / 64) as u8) as char
    } else if u < 0x10000 {
        ((0xE0 + u / 4096) as u8) as char
    } else {
        ((0xF0 + u / 262144) as u8) as char
    }
}

/// A diagnostic as message and byte range.
pub type ErrV = (Seq<char>, int, int);

/// What one sub-lexer consumed and produced, starting at a token start.
pub struct LexStep {
    pub end: int,
    pub kind: Option<TokenKindV>,
    pub errs: Seq<ErrV>,
}

/// What an escape after a backslash produced. `split` marks an unknown escape
/// of a multibyte scalar: only its first byte is taken as the escape letter,
/// and its remaining bytes follow as raw bytes.
pub struct EscV {
    pub end: int,
    pub val: Option<char>,
    pub split: bool,
    pub errs: Seq<ErrV>,
}

pub open spec fn b(s: Seq<char>, i: int) -> int {
    byte_off(s, i)
}

/// The body of `\u{...}` after the `u` at `q - 1`; `esc` is the backslash.
pub open spec fn unicode_escape_spec(s: Seq<char>, q: int, esc: int) -> EscV {
    if q >= s.len() || s[q] != '{' {
        EscV { end: q, val: None, split: false, errs: seq![("expected '{' after \\u"@, b(s, esc), b(s, q))] }
    } else {
        let h0 = q + 1;
        let k = scan_hex(s, h0);
        if k >= s.len() || s[k] != '}' {
            EscV {
                end: k,
                val: None,
                split: false,
                errs: seq![("unterminated \\u escape; expected '}'"@, b(s, esc), b(s, k))],
            }
        } else {
            let end = k + 1;
            let digits = k - h0;
            let value = hex_value(s, h0, h0 + if digits < 6 { digits } else { 6 });
            if digits == 0 || digits > 6 {
                EscV { end, val: None, split: false, errs: seq![("\\u escape needs 1 to 6 hex digits"@, b(s, esc), b(s, end))] }
            } else if 0xD800 <= value <= 0xDFFF {
                EscV {
                    end,
                    val: None,
                    split: false,
                    errs: seq![("\\u escape is a surrogate code point, not a scalar value"@, b(s, esc), b(s, end))],
                }
            } else if value > 0x10FFFF {
                EscV {
                    end,
                    val: None,
                    split: false,
                    errs: seq![("\\u escape is above 0x10FFFF, the Unicode maximum"@, b(s, esc), b(s, end))],
                }
            } else {
                EscV { end, val: Some((value as u32) as char), split: false, errs: seq![] }
            }
        }
    }
}

/// The escape whose letter is at `q`, right after a backslash at `q - 1`.
pub open spec fn escape_spec(s: Seq<char>, q: int) -> EscV {
    let esc = q - 1;
    if q >= s.len() {
        EscV { end: q, val: None, split: false, errs: seq![("unknown escape '\\?'"@, b(s, esc), b(s, q))] }
    } else {
        let c = s[q];
        if c == 'n' {
            EscV { end: q + 1, val: Some('\n'), split: false, errs: seq![] }
        } else if c == 't' {
            EscV { end: q + 1, val: Some('\t'), split: false, errs: seq![] }
        } else if c == 'r' {
            EscV { end: q + 1, val: Some('\r'), split: false, errs: seq![] }
        } else if c == '0' {
            EscV { end: q + 1, val: Some('\0'), split: false, errs: seq![] }
        } else if c == '\\' {
            EscV { end: q + 1, val: Some('\\'), split: false, errs: seq![] }
        } else if c == '"' {
            EscV { end: q + 1, val: Some('"'), split: false, errs: seq![] }
        } else if c == '\'' {
            EscV { end: q + 1, val: Some('\''), split: false, errs: seq![] }
        } else if c == 'u' {
            unicode_escape_spec(s, q + 1, esc)
        } else if (c as u32) < 0x80 {
            EscV {
                end: q + 1,
                val: None,
                split: false,
                errs: seq![("unknown escape '\\"@ + seq![c] + "'"@, b(s, esc), b(s, q + 1))],
            }
        } else {
            EscV {
                end: q + 1,
                val: None,
                split: true,
                errs: seq![("unknown escape '\\"@ + seq![lead_byte_char(c)] + "'"@, b(s, esc), b(s, q) + 1)],
            }
        }
    }
}

/// The replacement scalars standing for `n` stray continuation bytes.
pub open spec fn replacements(n: int) -> Seq<char> {
    Seq::new(if n > 0 { n as nat } else { 0 }, |i: int| '\u{FFFD}')
}

/// Scans a string literal's body from `p`, with `buf` the text so far.
pub open spec fn string_from(
    s: Seq<char>,
    start: int,
    p: int,
    buf: Seq<char>,
    invalid: bool,
    errs: Seq<ErrV>,
) -> LexStep
    decreases s.len() - p,
{
    if p < 0 || p >= s.len() {
        let errs = errs.push(("unterminated string literal"@, b(s, start), b(s, p)));
        string_finish(s, start, p, buf, invalid, errs)
    } else {
        let c = s[p];
        if c == '"' {
            string_finish(s, start, p + 1, buf, invalid, errs)
        } else if c == '\\' {
            let e = escape_spec(s, p + 1);
            let buf2 = buf + (match e.val {
                Some(v) => seq![v],
                None => seq![],
            }) + (if e.split { replacements(utf8_width(s[p + 1]) - 1) } else { seq![] });
            if p < e.end <= s.len() {
                string_from(s, start, e.end, buf2, invalid || e.split, errs + e.errs)
            } else {
                string_finish(s, start, p, buf, invalid, errs)
            }
        } else {
            string_from(s, start, p + 1, buf.push(c), invalid, errs)
        }
    }
}

pub open spec fn string_finish(s: Seq<char>, start: int, end: int, buf: Seq<char>, invalid: bool, errs: Seq<ErrV>) -> LexStep {
    LexStep {
        end,
        kind: Some(TokenKindV::Str(buf)),
        errs: if invalid {
            errs.push(("string literal is not valid UTF-8"@, b(s, start), b(s, end)))
        } else {
            errs
        },
    }
}

pub open spec fn ident_spec(s: Seq<char>, i: int) -> LexStep {
    let j = scan_ident(s, i);
    let text = s.subrange(i, j);
    LexStep {
        end: j,
        kind: Some(
            if text == "true"@ {
                TokenKindV::Bool(true)
            } else if text == "false"@ {
                TokenKindV::Bool(false)
            } else {
                match spec_keyword(text) {
                    Some(k) => TokenKindV::Kw(k),
                    None => TokenKindV::Ident(text),
                }
            },
        ),
        errs: seq![],
    }
}

pub open spec fn number_spec(s: Seq<char>, i: int) -> LexStep {
    let j = scan_digits(s, i);
    let is_float = j + 1 < s.len() && s[j] == '.' && is_digit(s[j + 1]);
    let k = if is_float { scan_digits(s, j + 1) } else { j };
    let body = s.subrange(i, k);
    let has_suffix = k < s.len() && is_alpha(s[k]);
    let m = if has_suffix { scan_alnum(s, k) } else { k };
    let suffix = if has_suffix { Some(s.subrange(k, m)) } else { None };
    let e1: Seq<ErrV> = if has_suffix && !valid_suffix_spec(s.subrange(k, m)) {
        seq![("unknown literal suffix '"@ + s.subrange(k, m) + "'"@, b(s, i), b(s, m))]
    } else {
        seq![]
    };
    if is_float {
        LexStep { end: m, kind: Some(TokenKindV::Float(body, suffix)), errs: e1 }
    } else {
        let v = dec_value(s, i, k);
        if v <= i64::MAX {
            LexStep { end: m, kind: Some(TokenKindV::Int(v as i64, suffix)), errs: e1 }
        } else {
            LexStep {
                end: m,
                kind: Some(TokenKindV::Int(0, suffix)),
                errs: e1.push(("invalid integer literal '"@ + body + "'"@, b(s, i), b(s, m))),
            }
        }
    }
}

/// A char literal (`rune` false, opening quote at `start`) or a rune literal
/// (`rune` true, `r'` at `start`).
pub open spec fn quoted_spec(s: Seq<char>, start: int, rune: bool) -> LexStep {
    let q = if rune { start + 2 } else { start + 1 };
    let stage: (int, char, bool, Seq<ErrV>) = if q >= s.len() {
        (q, '\0', false, seq![(if rune { "unterminated rune literal"@ } else { "unterminated char literal"@ }, b(s, start), b(s, q))])
    } else if s[q] == '\'' {
        (q, '\0', false, seq![(if rune { "empty rune literal"@ } else { "empty char literal"@ }, b(s, start), b(s, q))])
    } else if s[q] == '\\' {
        let e = escape_spec(s, q + 1);
        let ch = match e.val {
            Some(v) => v,
            None => '\0',
        };
        let wide: Seq<ErrV> = if !rune && (ch as u32) > 0x7F {
            seq![("a char is one byte; this escape does not fit, use a rune literal or a string"@, b(s, start), b(s, e.end))]
        } else {
            seq![]
        };
        (e.end, ch, e.split, e.errs + wide)
    } else if (s[q] as u32) < 0x80 {
        (q + 1, s[q], false, seq![])
    } else {
        (q + 1, s[q], false, if rune {
            seq![]
        } else {
            seq![("a char is one byte; use a rune literal r'...' or a string"@, b(s, start), b(s, q + 1))]
        })
    };
    let pos = stage.0;
    let ch = stage.1;
    let kind = if rune { TokenKindV::Rune(ch) } else { TokenKindV::Char(ch) };
    if !stage.2 && pos < s.len() && s[pos] == '\'' {
        LexStep { end: pos + 1, kind: Some(kind), errs: stage.3 }
    } else {
        let k = scan_to_quote(s, pos);
        let end = if k < s.len() && s[k] == '\'' { k + 1 } else { k };
        LexStep {
            end,
            kind: Some(kind),
            errs: stage.3.push(
                (
                    if rune {
                        "rune literal must contain exactly one character"@
                    } else {
                        "char literal must contain exactly one character"@
                    },
                    b(s, start),
                    b(s, end),
                ),
            ),
        }
    }
}

/// The operator spelled by up to three scalars, longest match first, as its
/// length and kind.
pub open spec fn operator(c: char, n: Option<char>, n3: Option<char>) -> Option<(int, TokenKindV)> {
    if c == ':' && n == Some('=') {
        Some((2, TokenKindV::ColonEq))
    } else if c == '=' && n == Some('>') {
        Some((2, TokenKindV::FatArrow))
    } else if c == '=' && n == Some('=') {
        Some((2, TokenKindV::EqEq))
    } else if c == '!' && n == Some('=') {
        Some((2, TokenKindV::Ne))
    } else if c == '.' && n == Some('.') && n3 == Some('=') {
        Some((3, TokenKindV::DotDotEq))
    } else if c == '.' && n == Some('.') {
        Some((2, TokenKindV::DotDot))
    } else if c == '<' && n == Some('<') && n3 == Some('=') {
        Some((3, TokenKindV::ShlEq))
    } else if c == '<' && n == Some('<') {
        Some((2, TokenKindV::Shl))
    } else if c == '<' && n == Some('=') {
        Some((2, TokenKindV::Le))
    } else if c == '<' && n == Some('-') {
        Some((2, TokenKindV::LArrow))
    } else if c == '>' && n == Some('>') && n3 == Some('=') {
        Some((3, TokenKindV::ShrEq))
    } else if c == '>' && n == Some('>') {
        Some((2, TokenKindV::Shr))
    } else if c == '>' && n == Some('=') {
        Some((2, TokenKindV::Ge))
    } else if c == '&' && n == Some('&') {
        Some((2, TokenKindV::AndAnd))
    } else if c == '&' && n == Some('=') {
        Some((2, TokenKindV::AmpEq))
    } else if c == '|' && n == Some('|') {
        Some((2, TokenKindV::OrOr))
    } else if c == '|' && n == Some('>') {
        Some((2, TokenKindV::PipeGt))
    } else if c == '|' && n == Some('=') {
        Some((2, TokenKindV::PipeEq))
    } else if c == '^' && n == Some('=') {
        Some((2, TokenKindV::CaretEq))
    } else if c == '+' && n == Some('+') {
        Some((2, TokenKindV::PlusPlus))
    } else if c == '+' && n == Some('=') {
        Some((2, TokenKindV::PlusEq))
    } else if c == '-' && n == Some('>') {
        Some((2, TokenKindV::Arrow))
    } else if c == '-' && n == Some('-') {
        Some((2, TokenKindV::MinusMinus))
    } else if c == '-' && n == Some('=') {
        Some((2, TokenKindV::MinusEq))
    } else if c == '*' && n == Some('*') {
        Some((2, TokenKindV::StarStar))
    } else if c == '*' && n == Some('=') {
        Some((2, TokenKindV::StarEq))
    } else if c == '/' && n == Some('=') {
        Some((2, TokenKindV::SlashEq))
    } else if c == '%' && n == Some('=') {
        Some((2, TokenKindV::PercentEq))
    } else {
        match one_spec(c) {
            Some(k) => Some((1, k)),
            None => None,
        }
    }
}

/// The single scalar punctuation tokens.
pub open spec fn one_spec(c: char) -> Option<TokenKindV> {
    if c == '=' {
        Some(TokenKindV::Assign)
    } else if c == '+' {
        Some(TokenKindV::Plus)
    } else if c == '-' {
        Some(TokenKindV::Minus)
    } else if c == '*' {
        Some(TokenKindV::Star)
    } else if c == '/' {
        Some(TokenKindV::Slash)
    } else if c == '%' {
        Some(TokenKindV::Percent)
    } else if c == '<' {
        Some(TokenKindV::Lt)
    } else if c == '>' {
        Some(TokenKindV::Gt)
    } else if c == '!' {
        Some(TokenKindV::Bang)
    } else if c == '&' {
        Some(TokenKindV::Amp)
    } else if c == '|' {
        Some(TokenKindV::Pipe)
    } else if c == '^' {
        Some(TokenKindV::Caret)
    } else if c == '~' {
        Some(TokenKindV::Tilde)
    } else if c == ':' {
        Some(TokenKindV::Colon)
    } else if c == ';' {
        Some(TokenKindV::Semi)
    } else if c == ',' {
        Some(TokenKindV::Comma)
    } else if c == '.' {
        Some(TokenKindV::Dot)
    } else if c == '@' {
        Some(TokenKindV::At)
    } else if c == '(' {
        Some(TokenKindV::LParen)
    } else if c == ')' {
        Some(TokenKindV::RParen)
    } else if c == '{' {
        Some(TokenKindV::LBrace)
    } else if c == '}' {
        Some(TokenKindV::RBrace)
    } else if c == '[' {
        Some(TokenKindV::LBracket)
    } else if c == ']' {
        Some(TokenKindV::RBracket)
    } else {
        None
    }
}

pub open spec fn at(s: Seq<char>, i: int) -> Option<char> {
    if 0 <= i < s.len() {
        Some(s[i])
    } else {
        None
    }
}

pub open spec fn symbol_spec(s: Seq<char>, start: int) -> LexStep {
    let c = s[start];
    if (c as u32) >= 0x80 {
        LexStep {
            end: start + 1,
            kind: None,
            errs: seq![("unexpected character '"@ + seq![c] + "'"@, b(s, start), b(s, start + 1))],
        }
    } else {
        match operator(c, at(s, start + 1), at(s, start + 2)) {
            Some((len, k)) => LexStep { end: start + len, kind: Some(k), errs: seq![] },
            None => LexStep {
                end: start + 1,
                kind: None,
                errs: seq![("unexpected character '"@ + seq![c] + "'"@, b(s, start), b(s, start + 1))],
            },
        }
    }
}

/// Skips blanks, newlines and line comments from `i`; `nl` records whether a
/// newline was passed.
pub open spec fn skip_trivia_spec(s: Seq<char>, i: int, nl: bool) -> (int, bool)
    decreases s.len() - i,
{
    if i < 0 || i >= s.len() {
        (i, nl)
    } else {
        let c = s[i];
        if c == '\n' {
            skip_trivia_spec(s, i + 1, true)
        } else if c == ' ' || c == '\t' || c == '\r' {
            skip_trivia_spec(s, i + 1, nl)
        } else if c == '/' && i + 1 < s.len() && s[i + 1] == '/' {
            if i < scan_to_nl(s, i) <= s.len() {
                skip_trivia_spec(s, scan_to_nl(s, i), nl)
            } else {
                (i, nl)
            }
        } else {
            (i, nl)
        }
    }
}

/// The sub-lexer a token start dispatches to.
pub open spec fn step_spec(s: Seq<char>, j: int) -> LexStep {
    let c = s[j];
    if c == 'r' && j + 1 < s.len() && s[j + 1] == '\'' {
        quoted_spec(s, j, true)
    } else if is_alpha(c) || c == '_' {
        ident_spec(s, j)
    } else if is_digit(c) {
        number_spec(s, j)
    } else if c == '"' {
        string_from(s, j, j + 1, seq![], false, seq![])
    } else if c == '\'' {
        quoted_spec(s, j, false)
    } else {
        symbol_spec(s, j)
    }
}

/// A lexed token as kind, byte range and whether a newline preceded it.
pub type TokV = (TokenKindV, int, int, bool);

/// The tokens and diagnostics of `s` from index `i`, with `nl` pending.
pub open spec fn lex_from(s: Seq<char>, i: int, nl: bool) -> (Seq<TokV>, Seq<ErrV>)
    decreases s.len() - i,
{
    let (j, nl2) = skip_trivia_spec(s, i, nl);
    if j < i || j >= s.len() {
        let e = if j < i { i } else { j };
        (seq![(TokenKindV::Eof, b(s, e), b(s, e), nl2)], seq![])
    } else {
        let st = step_spec(s, j);
        if st.end <= j || st.end > s.len() {
            (seq![], st.errs)
        } else {
            let rest = lex_from(s, st.end, if st.kind is Some { false } else { nl2 });
            (
                match st.kind {
                    Some(k) => seq![(k, b(s, j), b(s, st.end), nl2)] + rest.0,
                    None => rest.0,
                },
                st.errs + rest.1,
            )
        }
    }
}

/// The tokens and diagnostics of a whole source.
pub open spec fn lex_spec(s: Seq<char>) -> (Seq<TokV>, Seq<ErrV>) {
    lex_from(s, 0, false)
}

pub proof fn lemma_scan_ident(s: Seq<char>, i: int)
    requires
        0 <= i <= s.len(),
    ensures
        i <= scan_ident(s, i) <= s.len(),
        i < s.len() && is_ident_char(s[i]) ==> i < scan_ident(s, i),
    decreases s.len() - i,
{
    if i < s.len() && is_ident_char(s[i]) {
        lemma_scan_ident(s, i + 1);
    }
}

pub proof fn lemma_scan_digits(s: Seq<char>, i: int)
    requires
        0 <= i <= s.len(),
    ensures
        i <= scan_digits(s, i) <= s.len(),
        i < s.len() && is_digit(s[i]) ==> i < scan_digits(s, i),
    decreases s.len() - i,
{
    if i < s.len() && is_digit(s[i]) {
        lemma_scan_digits(s, i + 1);
    }
}

pub proof fn lemma_scan_alnum(s: Seq<char>, i: int)
    requires
        0 <= i <= s.len(),
    ensures
        i <= scan_alnum(s, i) <= s.len(),
        i < s.len() && (is_alpha(s[i]) || is_digit(s[i])) ==> i < scan_alnum(s, i),
    decreases s.len() - i,
{
    if i < s.len() && (is_alpha(s[i]) || is_digit(s[i])) {
        lemma_scan_alnum(s, i + 1);
    }
}

pub proof fn lemma_scan_hex(s: Seq<char>, i: int)
    requires
        0 <= i <= s.len(),
    ensures
        i <= scan_hex(s, i) <= s.len(),
    decreases s.len() - i,
{
    if i < s.len() && is_hex(s[i]) {
        lemma_scan_hex(s, i + 1);
    }
}

pub proof fn lemma_scan_to_quote(s: Seq<char>, i: int)
    requires
        0 <= i <= s.len(),
    ensures
        i <= scan_to_quote(s, i) <= s.len(),
    decreases s.len() - i,
{
    if i < s.len() && s[i] != '\'' && s[i] != '\n' {
        lemma_scan_to_quote(s, i + 1);
    }
}

pub proof fn lemma_scan_to_nl(s: Seq<char>, i: int)
    requires
        0 <= i <= s.len(),
    ensures
        i <= scan_to_nl(s, i) <= s.len(),
        i < s.len() && s[i] != '\n' ==> i < scan_to_nl(s, i),
    decreases s.len() - i,
{
    if i < s.len() && s[i] != '\n' {
        lemma_scan_to_nl(s, i + 1);
    }
}

pub proof fn lemma_unicode_escape_end(s: Seq<char>, q: int, esc: int)
    requires
        0 <= q <= s.len(),
    ensures
        q <= unicode_escape_spec(s, q, esc).end <= s.len(),
        !unicode_escape_spec(s, q, esc).split,
{
    if q < s.len() && s[q] == '{' {
        lemma_scan_hex(s, q + 1);
    }
}

pub proof fn lemma_escape_end(s: Seq<char>, q: int)
    requires
        0 <= q <= s.len(),
    ensures
        q <= escape_spec(s, q).end <= s.len(),
        escape_spec(s, q).split ==> q < s.len() && escape_spec(s, q).end == q + 1 && (s[q] as u32)
            >= 0x80,
{
    if q < s.len() && s[q] == 'u' {
        lemma_unicode_escape_end(s, q + 1, q - 1);
    }
}

pub proof fn lemma_string_end(
    s: Seq<char>,
    start: int,
    p: int,
    buf: Seq<char>,
    invalid: bool,
    errs: Seq<ErrV>,
)
    requires
        0 <= p <= s.len(),
    ensures
        p <= string_from(s, start, p, buf, invalid, errs).end <= s.len(),
    decreases s.len() - p,
{
    if p < s.len() {
        let c = s[p];
        if c == '\\' {
            lemma_escape_end(s, p + 1);
            let e = escape_spec(s, p + 1);
            let buf2 = buf + (match e.val {
                Some(v) => seq![v],
                None => seq![],
            }) + (if e.split { replacements(utf8_width(s[p + 1]) - 1) } else { seq![] });
            lemma_string_end(s, start, e.end, buf2, invalid || e.split, errs + e.errs);
        } else if c != '"' {
            lemma_string_end(s, start, p + 1, buf.push(c), invalid, errs);
        }
    }
}

pub proof fn lemma_quoted_end(s: Seq<char>, start: int, rune: bool)
    requires
        0 <= start,
        if rune { start + 1 < s.len() } else { start < s.len() },
    ensures
        start < quoted_spec(s, start, rune).end <= s.len(),
{
    let q = if rune { start + 2 } else { start + 1 };
    if q < s.len() && s[q] == '\\' {
        lemma_escape_end(s, q + 1);
        let e = escape_spec(s, q + 1);
        lemma_scan_to_quote(s, e.end);
    } else if q < s.len() && s[q] != '\'' {
        lemma_scan_to_quote(s, q + 1);
    } else {
        lemma_scan_to_quote(s, q);
    }
}

pub proof fn lemma_number_end(s: Seq<char>, i: int)
    requires
        0 <= i < s.len(),
        is_digit(s[i]),
    ensures
        i < number_spec(s, i).end <= s.len(),
{
    lemma_scan_digits(s, i);
    let j = scan_digits(s, i);
    if j + 1 < s.len() && s[j] == '.' && is_digit(s[j + 1]) {
        lemma_scan_digits(s, j + 1);
        lemma_scan_alnum(s, scan_digits(s, j + 1));
    } else {
        lemma_scan_alnum(s, j);
    }
}

pub proof fn lemma_step_end(s: Seq<char>, j: int)
    requires
        0 <= j < s.len(),
    ensures
        j < step_spec(s, j).end <= s.len(),
{
    let c = s[j];
    if c == 'r' && j + 1 < s.len() && s[j + 1] == '\'' {
        lemma_quoted_end(s, j, true);
    } else if is_alpha(c) || c == '_' {
        lemma_scan_ident(s, j);
    } else if is_digit(c) {
        lemma_number_end(s, j);
    } else if c == '"' {
        lemma_string_end(s, j, j + 1, seq![], false, seq![]);
    } else if c == '\'' {
        lemma_quoted_end(s, j, false);
    }
}

pub proof fn lemma_skip_trivia_end(s: Seq<char>, i: int, nl: bool)
    requires
        0 <= i <= s.len(),
    ensures
        i <= skip_trivia_spec(s, i, nl).0 <= s.len(),
    decreases s.len() - i,
{
    if i < s.len() {
        let c = s[i];
        if c == '\n' {
            lemma_skip_trivia_end(s, i + 1, true);
        } else if c == ' ' || c == '\t' || c == '\r' {
            lemma_skip_trivia_end(s, i + 1, nl);
        } else if c == '/' && i + 1 < s.len() && s[i + 1] == '/' {
            lemma_scan_to_nl(s, i);
            lemma_skip_trivia_end(s, scan_to_nl(s, i), nl);
        }
    }
}

/// One round of `lex_from`: skip trivia, then either end with `Eof` or take
/// the step at the next token start and go on after it.
pub proof fn lemma_lex_from_unfold(s: Seq<char>, i: int, nl: bool)
    requires
        0 <= i <= s.len(),
    ensures
        ({
            let (j, nl2) = skip_trivia_spec(s, i, nl);
            if j >= s.len() {
                lex_from(s, i, nl) == (seq![(TokenKindV::Eof, b(s, j), b(s, j), nl2)], Seq::<ErrV>::empty())
            } else {
                let st = step_spec(s, j);
                let rest = lex_from(s, st.end, if st.kind is Some { false } else { nl2 });
                &&& j < st.end <= s.len()
                &&& lex_from(s, i, nl).0 == (match st.kind {
                    Some(k) => seq![(k, b(s, j), b(s, st.end), nl2)],
                    None => Seq::<TokV>::empty(),
                }) + rest.0
                &&& lex_from(s, i, nl).1 == st.errs + rest.1
            }
        }),
{
    lemma_skip_trivia_end(s, i, nl);
    let (j, nl2) = skip_trivia_spec(s, i, nl);
    if j < s.len() {
        lemma_step_end(s, j);
        let st = step_spec(s, j);
        let rest = lex_from(s, st.end, if st.kind is Some { false } else { nl2 });
        if st.kind is None {
            assert(Seq::<TokV>::empty() + rest.0 =~= rest.0);
        }
    }
}


proof fn lemma_string_kind(
    s: Seq<char>,
    start: int,
    p: int,
    buf: Seq<char>,
    invalid: bool,
    errs: Seq<ErrV>,
)
    ensures
        string_from(s, start, p, buf, invalid, errs).kind is Some,
        string_from(s, start, p, buf, invalid, errs).kind->0 is Str,
    decreases s.len() - p,
{
    if 0 <= p < s.len() {
        let c = s[p];
        if c == '\\' {
            let e = escape_spec(s, p + 1);
            let buf2 = buf + (match e.val {
                Some(v) => seq![v],
                None => seq![],
            }) + (if e.split { replacements(utf8_width(s[p + 1]) - 1) } else { seq![] });
            if p < e.end <= s.len() {
                lemma_string_kind(s, start, e.end, buf2, invalid || e.split, errs + e.errs);
            }
        } else if c != '"' {
            lemma_string_kind(s, start, p + 1, buf.push(c), invalid, errs);
        }
    }
}

/// No sub-lexer produces the end marker.
proof fn lemma_step_not_eof(s: Seq<char>, j: int)
    requires
        0 <= j < s.len(),
    ensures
        !(step_spec(s, j).kind == Some(TokenKindV::Eof)),
{
    let c = s[j];
    if !(c == 'r' && j + 1 < s.len() && s[j + 1] == '\'') && !(is_alpha(c) || c == '_') && !is_digit(c)
        && c == '"' {
        lemma_string_kind(s, j, j + 1, seq![], false, seq![]);
    }
    if !(c == 'r' && j + 1 < s.len() && s[j + 1] == '\'') && !(is_alpha(c) || c == '_') && !is_digit(c)
        && c != '"' && c != '\'' {
        if (c as u32) < 0x80 {
            let n = at(s, j + 1);
            let n3 = at(s, j + 2);
            match operator(c, n, n3) {
                Some((_, k)) => {
                    assert(k != TokenKindV::Eof);
                },
                None => {},
            }
        }
    }
}

/// The shape of the tokens lexed from index `i`: at least one, the last and
/// only the last is the end marker, each span lies between `i`'s byte offset
/// and the source's end, and spans come in source order without overlapping.
pub open spec fn stream_shaped(s: Seq<char>, i: int, toks: Seq<TokV>) -> bool {
    &&& toks.len() >= 1
    &&& toks.last().0 == TokenKindV::Eof
    &&& forall|k: int| 0 <= k < toks.len() - 1 ==> (#[trigger] toks[k]).0 != TokenKindV::Eof
    &&& forall|k: int|
        0 <= k < toks.len() ==> b(s, i) <= (#[trigger] toks[k]).1 <= toks[k].2 <= b(s, s.len() as int)
    &&& forall|k: int| 0 <= k < toks.len() - 1 ==> (#[trigger] toks[k]).2 <= toks[k + 1].1
}

proof fn lemma_lex_from_shaped(s: Seq<char>, i: int, nl: bool)
    requires
        0 <= i <= s.len(),
    ensures
        stream_shaped(s, i, lex_from(s, i, nl).0),
    decreases s.len() - i,
{
    lemma_lex_from_unfold(s, i, nl);
    lemma_skip_trivia_end(s, i, nl);
    let (j, nl2) = skip_trivia_spec(s, i, nl);
    lemma_byte_off_mono(s, i, j);
    lemma_byte_off_mono(s, j, s.len() as int);
    if j < s.len() {
        let st = step_spec(s, j);
        lemma_step_end(s, j);
        lemma_step_not_eof(s, j);
        lemma_byte_off_mono(s, j, st.end);
        let nl3 = if st.kind is Some { false } else { nl2 };
        lemma_lex_from_shaped(s, st.end, nl3);
        let rest = lex_from(s, st.end, nl3).0;
        match st.kind {
            Some(k) => {
                let head: TokV = (k, b(s, j), b(s, st.end), nl2);
                let all = seq![head] + rest;
                assert(lex_from(s, i, nl).0 == all);
                assert forall|x: int| 0 <= x < all.len() - 1 implies (#[trigger] all[x]).2 <= all[x + 1].1 by {
                    if x > 0 {
                        assert(all[x] == rest[x - 1]);
                        assert(all[x + 1] == rest[x]);
                    } else {
                        assert(all[1] == rest[0]);
                    }
                }
                assert forall|x: int| 0 <= x < all.len() - 1 implies (#[trigger] all[x]).0 != TokenKindV::Eof by {
                    if x > 0 {
                        assert(all[x] == rest[x - 1]);
                    }
                }
                assert forall|x: int| 0 <= x < all.len() implies b(s, i) <= (#[trigger] all[x]).1 <= all[x].2 <= b(
                    s,
                    s.len() as int,
                ) by {
                    if x > 0 {
                        assert(all[x] == rest[x - 1]);
                    }
                }
                assert(all.last() == rest.last());
            },
            None => {
                assert(lex_from(s, i, nl).0 =~= rest);
            },
        }
    }
}

/// Law: lexing never fails to produce a stream. Every source yields at least
/// one token; the last token, and only the last, is `Eof`; every span lies
/// inside the source; and spans come in source order without overlapping.
pub proof fn law_lex_stream(s: Seq<char>)
    ensures
        stream_shaped(s, 0, lex_spec(s).0),
{
    lemma_lex_from_shaped(s, 0, false);
}

} // verus!
