use dusk::diag::{line_col, Diagnostic, Span};

#[test]
fn line_col_basic() {
    let src = "ab\ncd";
    assert_eq!(line_col(src, 0), (1, 1));
    assert_eq!(line_col(src, 1), (1, 2));
    assert_eq!(line_col(src, 3), (2, 1));
    assert_eq!(line_col(src, 4), (2, 2));
}

#[test]
fn ascii_caret_aligns_under_the_span() {
    let src = "let x = bad\n";
    let idx = src.find("bad").unwrap() as u32;
    let d = Diagnostic::new("oops", Span::new(idx, idx + 3));
    let out = d.render(src);
    assert_eq!(out, "1:9: error: oops\n  let x = bad\n          ^~~");
}

#[test]
fn multibyte_before_span_counts_scalars_not_bytes() {
    let src = "caf\u{e9} := bad\n";
    let idx = src.find("bad").unwrap() as u32;
    let d = Diagnostic::new("oops", Span::new(idx, idx + 3));
    let out = d.render(src);
    assert!(out.starts_with("1:9: error: oops\n"), "{out}");
    assert!(out.ends_with("^~~"), "{out}");
}

#[test]
fn tab_before_span_pads_with_a_tab() {
    let src = "\tx := bad\n";
    let idx = src.find("bad").unwrap() as u32;
    let d = Diagnostic::new("oops", Span::new(idx, idx + 3));
    let out = d.render(src);
    let lines: Vec<&str> = out.lines().collect();
    assert_eq!(lines.len(), 3, "{out:?}");
    assert!(lines[2].starts_with("  \t"), "pad must keep the tab: {:?}", lines[2]);
    assert!(lines[2].ends_with("^~~"), "{:?}", lines[2]);
}

#[test]
fn span_crossing_a_newline_clamps_to_the_first_line() {
    let src = "abc\ndef\n";
    let d = Diagnostic::new("oops", Span::new(2, 5));
    let out = d.render(src);
    let lines: Vec<&str> = out.lines().collect();
    assert_eq!(lines[1], "  abc", "the source line must not include line 2");
    assert_eq!(lines[2], "    ^", "the caret must stop at line 1's end");
}

#[test]
fn span_past_eof_clamps_without_panicking() {
    let src = "abc";
    let d = Diagnostic::new("oops", Span::new(3, 5));
    let out = d.render(src);
    assert_eq!(out, "1:4: error: oops\n  abc\n     ^");
}

#[test]
fn one_char_span_produces_a_single_caret() {
    let src = "x\n";
    let d = Diagnostic::new("oops", Span::new(0, 1));
    let out = d.render(src);
    assert_eq!(out, "1:1: error: oops\n  x\n  ^");
}

#[test]
fn mid_scalar_offset_clamps_back_to_the_boundary() {
    // Byte 4 falls inside the two byte 'é' (bytes 3..5), so it clamps to 3.
    let src = "caf\u{e9}!";
    assert_eq!(dusk::diag::clamp_boundary(src, 4), 3);
    assert_eq!(dusk::diag::clamp_boundary(src, 5), 5);
    assert_eq!(dusk::diag::clamp_boundary(src, 99), 6);
    assert_eq!(line_col(src, 4), (1, 4));
}

#[test]
fn render_local_uses_the_local_offset_and_span_width() {
    let src = "ab\ncdef\n";
    let d = Diagnostic::new("boom", Span::new(1003, 1005));
    let out = d.render_local(src, 4);
    assert_eq!(out, "2:2: error: boom\n  cdef\n   ^~");
}

#[test]
fn reversed_span_still_gets_one_caret() {
    let src = "abc\n";
    let d = Diagnostic::new("m", Span::new(2, 1));
    assert_eq!(d.render(src), "1:3: error: m\n  abc\n    ^");
}
