use dusk::diag::Span;
use dusk::lexer::lex;
use dusk::lexer::token::{Keyword, TokenKind};

fn kinds(src: &str) -> Vec<TokenKind> {
    let (toks, errs) = lex(src);
    assert!(errs.is_empty(), "unexpected errors: {errs:?}");
    toks.into_iter().map(|t| t.kind).collect()
}

fn one_error(src: &str) -> String {
    let (_toks, errs) = lex(src);
    assert_eq!(errs.len(), 1, "expected one error for {src:?}: {errs:?}");
    errs[0].msg.clone()
}

fn int_tok(val: i64) -> TokenKind {
    TokenKind::Int { val, suffix: None }
}

fn ident(s: &str) -> TokenKind {
    TokenKind::Ident(s.to_string())
}

#[test]
fn keywords_idents_eof() {
    assert_eq!(
        kinds("func main mut x"),
        vec![
            TokenKind::Kw(Keyword::Func),
            ident("main"),
            TokenKind::Kw(Keyword::Mut),
            ident("x"),
            TokenKind::Eof,
        ]
    );
}

#[test]
fn type_names_and_self_are_idents() {
    assert_eq!(
        kinds("self int32 string error"),
        vec![ident("self"), ident("int32"), ident("string"), ident("error"), TokenKind::Eof]
    );
}

#[test]
fn multi_char_operators() {
    assert_eq!(
        kinds(":= -> => <- .. == != <= >= && ||"),
        vec![
            TokenKind::ColonEq,
            TokenKind::Arrow,
            TokenKind::FatArrow,
            TokenKind::LArrow,
            TokenKind::DotDot,
            TokenKind::EqEq,
            TokenKind::Ne,
            TokenKind::Le,
            TokenKind::Ge,
            TokenKind::AndAnd,
            TokenKind::OrOr,
            TokenKind::Eof,
        ]
    );
}

#[test]
fn bitwise_shift_and_compound_operators() {
    assert_eq!(
        kinds("& | ^ ~ << >> ** |> ..= ++ --"),
        vec![
            TokenKind::Amp,
            TokenKind::Pipe,
            TokenKind::Caret,
            TokenKind::Tilde,
            TokenKind::Shl,
            TokenKind::Shr,
            TokenKind::StarStar,
            TokenKind::PipeGt,
            TokenKind::DotDotEq,
            TokenKind::PlusPlus,
            TokenKind::MinusMinus,
            TokenKind::Eof,
        ]
    );
}

#[test]
fn compound_assign_operators() {
    assert_eq!(
        kinds("+= -= *= /= %= &= |= ^= <<= >>="),
        vec![
            TokenKind::PlusEq,
            TokenKind::MinusEq,
            TokenKind::StarEq,
            TokenKind::SlashEq,
            TokenKind::PercentEq,
            TokenKind::AmpEq,
            TokenKind::PipeEq,
            TokenKind::CaretEq,
            TokenKind::ShlEq,
            TokenKind::ShrEq,
            TokenKind::Eof,
        ]
    );
}

#[test]
fn inclusive_range_beats_exclusive_and_dot() {
    assert_eq!(
        kinds("1..=3 0..2 a...b"),
        vec![
            int_tok(1),
            TokenKind::DotDotEq,
            int_tok(3),
            int_tok(0),
            TokenKind::DotDot,
            int_tok(2),
            ident("a"),
            TokenKind::DotDot,
            TokenKind::Dot,
            ident("b"),
            TokenKind::Eof,
        ]
    );
}

#[test]
fn double_minus_lexes_as_decrement() {
    assert_eq!(
        kinds("x--y"),
        vec![ident("x"), TokenKind::MinusMinus, ident("y"), TokenKind::Eof]
    );
}

#[test]
fn shift_and_greater_disambiguate_greedily() {
    assert_eq!(
        kinds("a >> b >= c"),
        vec![ident("a"), TokenKind::Shr, ident("b"), TokenKind::Ge, ident("c"), TokenKind::Eof]
    );
}

#[test]
fn int_suffix_and_range() {
    assert_eq!(
        kinds("5u8 1..3"),
        vec![
            TokenKind::Int { val: 5, suffix: Some("u8".to_string()) },
            int_tok(1),
            TokenKind::DotDot,
            int_tok(3),
            TokenKind::Eof,
        ]
    );
}

#[test]
fn float_with_suffix() {
    let ks = kinds("2.5f32");
    assert_eq!(
        ks,
        vec![
            TokenKind::Float { text: "2.5".to_string(), suffix: Some("f32".to_string()) },
            TokenKind::Eof,
        ]
    );
    match &ks[0] {
        TokenKind::Float { text, .. } => assert_eq!(text.parse::<f64>().unwrap(), 2.5),
        other => panic!("not a float: {other:?}"),
    }
}

#[test]
fn unknown_suffix_errors() {
    for src in ["0xFF", "5x", "1e10"] {
        let (_toks, errs) = lex(src);
        assert!(!errs.is_empty(), "{src} should error");
    }
}

#[test]
fn member_access_is_dot_not_float() {
    assert_eq!(
        kinds("e.exists"),
        vec![ident("e"), TokenKind::Dot, ident("exists"), TokenKind::Eof]
    );
}

#[test]
fn string_and_escapes() {
    assert_eq!(kinds(r#""a\nb""#), vec![TokenKind::Str("a\nb".to_string()), TokenKind::Eof]);
}

#[test]
fn non_ascii_string_preserved() {
    assert_eq!(kinds("\"café\""), vec![TokenKind::Str("café".to_string()), TokenKind::Eof]);
}

#[test]
fn non_ascii_char_reports_one_error() {
    let (_toks, errs) = lex("'é'");
    assert_eq!(errs.len(), 1);
}

#[test]
fn directive_and_comment() {
    assert_eq!(
        kinds("@paradigm functional // note\n@import std.io"),
        vec![
            TokenKind::At,
            ident("paradigm"),
            ident("functional"),
            TokenKind::At,
            ident("import"),
            ident("std"),
            TokenKind::Dot,
            ident("io"),
            TokenKind::Eof,
        ]
    );
}

#[test]
fn unexpected_char_reports_error_and_continues() {
    let (toks, errs) = lex("a ` b");
    assert_eq!(errs.len(), 1);
    let idents = toks.iter().filter(|t| matches!(t.kind, TokenKind::Ident(_))).count();
    assert_eq!(idents, 2);
}

#[test]
fn unicode_escape_missing_brace() {
    assert!(one_error(r#""\u41""#).contains("expected '{' after \\u"));
}

#[test]
fn unicode_escape_zero_or_too_many_digits() {
    assert!(one_error(r#""\u{}""#).contains("1 to 6 hex digits"));
    assert!(one_error(r#""\u{1234567}""#).contains("1 to 6 hex digits"));
}

#[test]
fn unicode_escape_unterminated() {
    assert!(one_error(r#""\u{41""#).contains("unterminated \\u escape"));
}

#[test]
fn unicode_escape_surrogate() {
    assert!(one_error(r#""\u{D800}""#).contains("surrogate code point"));
}

#[test]
fn unicode_escape_above_max() {
    assert!(one_error(r#""\u{110000}""#).contains("above 0x10FFFF"));
}

#[test]
fn unicode_escape_legal_values() {
    assert_eq!(kinds(r#""\u{9}""#), vec![TokenKind::Str("\t".to_string()), TokenKind::Eof]);
    assert_eq!(
        kinds(r#""\u{01F600}""#),
        vec![TokenKind::Str("\u{1F600}".to_string()), TokenKind::Eof]
    );
    assert_eq!(
        kinds(r#""\u{4E2D}\u{6587}""#),
        vec![TokenKind::Str("中文".to_string()), TokenKind::Eof]
    );
    assert_eq!(kinds(r#""\u{1F600}""#), vec![TokenKind::Str("😀".to_string()), TokenKind::Eof]);
}

#[test]
fn rune_literals_hold_any_scalar() {
    assert_eq!(kinds("r'a'"), vec![TokenKind::Rune('a'), TokenKind::Eof]);
    assert_eq!(kinds("r'中'"), vec![TokenKind::Rune('中'), TokenKind::Eof]);
    assert_eq!(kinds(r"r'\u{1F600}'"), vec![TokenKind::Rune('😀'), TokenKind::Eof]);
}

#[test]
fn r_prefix_does_not_swallow_identifiers() {
    assert_eq!(kinds("radius"), vec![ident("radius"), TokenKind::Eof]);
    assert_eq!(
        kinds("r == 'a'"),
        vec![ident("r"), TokenKind::EqEq, TokenKind::Char('a'), TokenKind::Eof]
    );
    assert_eq!(
        kinds("f(r,'a')"),
        vec![
            ident("f"),
            TokenKind::LParen,
            ident("r"),
            TokenKind::Comma,
            TokenKind::Char('a'),
            TokenKind::RParen,
            TokenKind::Eof,
        ]
    );
}

#[test]
fn wide_escape_in_char_is_rejected() {
    assert!(one_error(r"'\u{4E2D}'").contains("a char is one byte"));
}

// Spans, newline flags and diagnostics in exact detail.

#[test]
fn spans_are_byte_offsets() {
    let (toks, errs) = lex("é x\n  y");
    assert_eq!(errs.len(), 1);
    assert_eq!(errs[0].msg, "unexpected character 'é'");
    assert_eq!(errs[0].span, Span { lo: 0, hi: 2 });
    assert_eq!(toks.len(), 3);
    assert_eq!(toks[0].kind, ident("x"));
    assert_eq!(toks[0].span, Span { lo: 3, hi: 4 });
    assert!(!toks[0].nl_before);
    assert_eq!(toks[1].kind, ident("y"));
    assert_eq!(toks[1].span, Span { lo: 7, hi: 8 });
    assert!(toks[1].nl_before);
    assert_eq!(toks[2].kind, TokenKind::Eof);
    assert_eq!(toks[2].span, Span { lo: 8, hi: 8 });
    assert!(!toks[2].nl_before);
}

#[test]
fn trailing_newline_marks_eof() {
    let (toks, _errs) = lex("a // c\n");
    assert_eq!(toks.len(), 2);
    assert!(toks[1].nl_before);
    assert_eq!(toks[1].span, Span { lo: 7, hi: 7 });
}

#[test]
fn empty_source_is_just_eof() {
    let (toks, errs) = lex("");
    assert!(errs.is_empty());
    assert_eq!(toks.len(), 1);
    assert_eq!(toks[0].kind, TokenKind::Eof);
    assert_eq!(toks[0].span, Span { lo: 0, hi: 0 });
}

#[test]
fn integer_overflow_is_reported_with_zero_value() {
    let (toks, errs) = lex("9223372036854775807 9223372036854775808");
    assert_eq!(toks[0].kind, int_tok(i64::MAX));
    assert_eq!(toks[1].kind, int_tok(0));
    assert_eq!(errs.len(), 1);
    assert_eq!(errs[0].msg, "invalid integer literal '9223372036854775808'");
    assert_eq!(errs[0].span, Span { lo: 20, hi: 39 });
}

#[test]
fn unknown_suffix_message_and_span() {
    let (toks, errs) = lex("5xy2");
    assert_eq!(toks[0].kind, TokenKind::Int { val: 5, suffix: Some("xy2".to_string()) });
    assert_eq!(errs.len(), 1);
    assert_eq!(errs[0].msg, "unknown literal suffix 'xy2'");
    assert_eq!(errs[0].span, Span { lo: 0, hi: 4 });
}

#[test]
fn unterminated_string_keeps_its_text() {
    let (toks, errs) = lex("\"ab");
    assert_eq!(toks[0].kind, TokenKind::Str("ab".to_string()));
    assert_eq!(errs.len(), 1);
    assert_eq!(errs[0].msg, "unterminated string literal");
    assert_eq!(errs[0].span, Span { lo: 0, hi: 3 });
}

#[test]
fn unknown_escape_of_a_wide_scalar_splits_its_bytes() {
    // The escape letter is the scalar's first byte; its trailing byte stays in
    // the literal, which is then not valid UTF-8 and reads back as U+FFFD.
    let (toks, errs) = lex("\"\\é\"");
    assert_eq!(toks[0].kind, TokenKind::Str("\u{FFFD}".to_string()));
    assert_eq!(errs.len(), 2);
    assert_eq!(errs[0].msg, "unknown escape '\\\u{C3}'");
    assert_eq!(errs[0].span, Span { lo: 1, hi: 3 });
    assert_eq!(errs[1].msg, "string literal is not valid UTF-8");
    assert_eq!(errs[1].span, Span { lo: 0, hi: 5 });
}

#[test]
fn unknown_ascii_escape_is_reported() {
    let (toks, errs) = lex(r#""a\qb""#);
    assert_eq!(toks[0].kind, TokenKind::Str("ab".to_string()));
    assert_eq!(errs.len(), 1);
    assert_eq!(errs[0].msg, "unknown escape '\\q'");
    assert_eq!(errs[0].span, Span { lo: 2, hi: 4 });
}

#[test]
fn char_literal_errors() {
    assert_eq!(one_error("''"), "empty char literal");
    let (toks, errs) = lex("'ab'");
    assert_eq!(toks[0].kind, TokenKind::Char('a'));
    assert_eq!(errs.len(), 1);
    assert_eq!(errs[0].msg, "char literal must contain exactly one character");
    assert_eq!(errs[0].span, Span { lo: 0, hi: 4 });
    let (_toks, errs) = lex("'");
    assert_eq!(errs.len(), 2);
    assert_eq!(errs[0].msg, "unterminated char literal");
    assert_eq!(errs[1].msg, "char literal must contain exactly one character");
}

#[test]
fn rune_literal_errors() {
    assert_eq!(one_error("r''"), "empty rune literal");
    let (toks, errs) = lex("r'xy'");
    assert_eq!(toks[0].kind, TokenKind::Rune('x'));
    assert_eq!(errs.len(), 1);
    assert_eq!(errs[0].msg, "rune literal must contain exactly one character");
}

#[test]
fn escapes_in_char_literals() {
    assert_eq!(kinds(r"'\n' '\0' '\''"), vec![
        TokenKind::Char('\n'),
        TokenKind::Char('\0'),
        TokenKind::Char('\''),
        TokenKind::Eof,
    ]);
}

#[test]
fn booleans_are_their_own_tokens() {
    assert_eq!(
        kinds("true false truth"),
        vec![TokenKind::Bool(true), TokenKind::Bool(false), ident("truth"), TokenKind::Eof]
    );
}

#[test]
fn lookup_maps_keywords_only() {
    assert_eq!(Keyword::lookup("func"), Some(Keyword::Func));
    assert_eq!(Keyword::lookup("match"), Some(Keyword::Match));
    assert_eq!(Keyword::lookup("int32"), None);
    assert_eq!(Keyword::lookup("main"), None);
}

#[test]
fn token_stream_is_ordered_and_ends_in_eof() {
    let src = "func f(x: int64) -> int64 {\n  // note\n  return x ** 2 + 'a' as int64\n}\n\"tail";
    let (toks, _) = lex(src);
    assert!(!toks.is_empty());
    assert!(matches!(toks.last().unwrap().kind, TokenKind::Eof));
    assert_eq!(toks.iter().filter(|t| matches!(t.kind, TokenKind::Eof)).count(), 1);
    for w in toks.windows(2) {
        assert!(w[0].span.lo <= w[0].span.hi);
        assert!(w[0].span.hi <= w[1].span.lo);
    }
    for t in &toks {
        assert!(t.span.hi as usize <= src.len());
    }
}
