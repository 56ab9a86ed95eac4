use dusk::lexer::lex;
use dusk::lexer::token::TokenKind;
use dusk::parser::ast::{BinOp, ExprKind};
use dusk::parser::{binop_of_kind, compound_op, is_cmp, node, Parser, MAX_NESTING};
use dusk::diag::Span;

fn parser(src: &str) -> Parser {
    let (toks, errs) = lex(src);
    assert!(errs.is_empty());
    Parser::new(toks)
}

#[test]
fn cursor_walks_and_stops_at_eof() {
    let mut p = parser("a + b");
    assert!(matches!(p.peek(), TokenKind::Ident(s) if s == "a"));
    assert!(matches!(p.peek2(), TokenKind::Plus));
    assert_eq!(p.prev_hi(), 0);
    p.bump();
    assert_eq!(p.position(), 1);
    assert_eq!(p.prev_hi(), 1);
    assert_eq!(p.span(), Span::new(2, 3));
    p.bump();
    p.bump();
    assert!(p.at_eof());
    assert!(matches!(p.peek2(), TokenKind::Eof));
    p.bump();
    assert_eq!(p.position(), 3);
    assert!(p.at_eof());
}

#[test]
fn newline_flag_is_read_from_the_token() {
    let mut p = parser("a\nb");
    assert!(!p.nl_here());
    p.bump();
    assert!(p.nl_here());
}

#[test]
fn pow_is_right_associative_and_others_left() {
    let pow = binop_of_kind(&TokenKind::StarStar).unwrap();
    assert_eq!(pow, (BinOp::Pow, 20, 20));
    let sub = binop_of_kind(&TokenKind::Minus).unwrap();
    assert_eq!(sub, (BinOp::Sub, 16, 17));
    let mul = binop_of_kind(&TokenKind::Star).unwrap();
    assert_eq!(mul, (BinOp::Mul, 18, 19));
    assert_eq!(binop_of_kind(&TokenKind::OrOr), Some((BinOp::Or, 2, 3)));
    assert_eq!(binop_of_kind(&TokenKind::Lt), Some((BinOp::Lt, 6, 7)));
    assert_eq!(binop_of_kind(&TokenKind::Shr), Some((BinOp::Shr, 14, 15)));
    assert_eq!(binop_of_kind(&TokenKind::Assign), None);
    assert_eq!(binop_of_kind(&TokenKind::PipeGt), None);
}

#[test]
fn peek_binop_reads_the_current_token() {
    let mut p = parser("x ** 2");
    assert_eq!(p.peek_binop(), None);
    p.bump();
    assert_eq!(p.peek_binop(), Some((BinOp::Pow, 20, 20)));
}

#[test]
fn compound_tokens_map_to_their_operator() {
    assert_eq!(compound_op(&TokenKind::PlusEq), Some(BinOp::Add));
    assert_eq!(compound_op(&TokenKind::ShrEq), Some(BinOp::Shr));
    assert_eq!(compound_op(&TokenKind::CaretEq), Some(BinOp::BitXor));
    assert_eq!(compound_op(&TokenKind::Plus), None);
    assert!(is_cmp(BinOp::Le));
    assert!(!is_cmp(BinOp::And));
}

#[test]
fn node_keeps_kind_and_span() {
    let e = node(ExprKind::Bool(true), Span::new(3, 7));
    assert!(matches!(e.kind, ExprKind::Bool(true)));
    assert_eq!(e.span, Span::new(3, 7));
}

#[test]
fn nesting_guard_reports_once_past_the_ceiling() {
    let mut p = parser("x");
    for _ in 0..MAX_NESTING {
        assert!(p.enter_nesting("expression", "expression"));
    }
    assert!(p.diagnostics().is_empty());
    assert!(!p.enter_nesting("expression", "expression"));
    assert!(!p.enter_nesting("type", "type"));
    assert_eq!(p.nesting(), MAX_NESTING + 2);
    assert_eq!(p.diagnostics().len(), 1);
    assert_eq!(p.diagnostics()[0].msg, "expression nesting is too deep; simplify the expression");
    assert_eq!(p.diagnostics()[0].span, Span::new(0, 1));
    p.leave_nesting();
    assert_eq!(p.nesting(), MAX_NESTING + 1);
}

#[test]
fn collector_mint_lookahead_tells_mint_from_comparison() {
    let mut p = parser("collector<int>(v)");
    p.bump();
    assert!(p.collector_mint_ahead());
    let mut p = parser("collector<Vec<int>>(v)");
    p.bump();
    assert!(p.collector_mint_ahead());
    let mut p = parser("collector < n");
    p.bump();
    assert!(!p.collector_mint_ahead());
    let mut p = parser("collector<a> b");
    p.bump();
    assert!(!p.collector_mint_ahead());
    let mut p = parser("collector<int>>(v)");
    p.bump();
    assert!(!p.collector_mint_ahead());
}

#[test]
fn array_len_reads_an_integer_or_reports() {
    let mut p = parser("16]");
    assert_eq!(p.array_len(), 16);
    assert_eq!(p.position(), 1);
    let mut p = parser("n]");
    assert_eq!(p.array_len(), 0);
    assert_eq!(p.position(), 0);
    assert_eq!(p.diagnostics()[0].msg, "expected an array length");
}

#[test]
fn type_close_accepts_joined_angles() {
    for (src, want) in [(">", true), (">>", true), (">=", true), (">>=", true), (",", false)] {
        let p = parser(src);
        assert_eq!(p.at_type_close(), want, "{src}");
    }
}
