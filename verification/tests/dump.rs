use dusk::parser::dump::escape_canonical;

#[test]
fn printable_ascii_passes_through() {
    let s: Vec<char> = "a b~!{}".chars().collect();
    assert_eq!(escape_canonical(&s), "a b~!{}");
}

#[test]
fn controls_and_non_ascii_become_minimal_lowercase_hex() {
    let s: Vec<char> = vec!['a', '\n', '\0', '\u{7f}', 'é', '中', '😀'];
    assert_eq!(escape_canonical(&s), "a\\u{a}\\u{0}\\u{7f}\\u{e9}\\u{4e2d}\\u{1f600}");
}

#[test]
fn empty_input_is_empty() {
    assert_eq!(escape_canonical(&[]), "");
}

#[test]
fn range_edges() {
    assert_eq!(escape_canonical(&[' ', '~', '\u{1f}']), " ~\\u{1f}");
}

use dusk::diag::Span;
use dusk::parser::ast::{
    Arm, BinOp, Block, DoBind, Expr, ExprKind, Field, Func, Impl, Item, Lambda, Let, Match, Module,
    Param, Pattern, Stmt, Struct, Type, UnOp,
};
use dusk::parser::dump::render_module;

fn sp(lo: u32, hi: u32) -> Span {
    Span { lo, hi }
}

fn ex(kind: ExprKind) -> Expr {
    Expr { kind, span: sp(1, 2) }
}

fn sample() -> Module {
    let body = Block {
        stmts: vec![
            Stmt::Let(Let {
                mutable: true,
                is_ref: false,
                infer: true,
                binds: vec![dusk::parser::ast::Bind { name: "x".to_string(), ty: Some(Type::Ptr(Box::new(Type::Unit))) }],
                value: ex(ExprKind::Binary(
                    BinOp::Add,
                    Box::new(ex(ExprKind::Int(-5, Some("i32".to_string())))),
                    Box::new(ex(ExprKind::Unary(UnOp::Neg, Box::new(ex(ExprKind::Ident("y".to_string())))))),
                )),
            }),
            Stmt::Match(Match {
                scrut: Box::new(ex(ExprKind::Bool(true))),
                arms: vec![
                    Arm { pat: Pattern::Variant("Some".to_string(), vec!["v".to_string()]), body: Block { stmts: vec![] } },
                    Arm { pat: Pattern::Wildcard, body: Block { stmts: vec![Stmt::Return(None)] } },
                ],
            }),
            Stmt::Expr(ex(ExprKind::Call(
                Box::new(ex(ExprKind::Ident("f".to_string()))),
                vec![
                    ex(ExprKind::StructLit("P".to_string(), vec![("a".to_string(), ex(ExprKind::Str("hi".to_string())))])),
                    ex(ExprKind::Lambda(Lambda {
                        params: vec![Param { using: false, name: "z".to_string(), ty: Type::Array(Box::new(Type::Tuple(vec![])), 3) }],
                        ret: Type::Func(vec![], Box::new(Type::Unit)),
                        body: Block { stmts: vec![] },
                    })),
                    ex(ExprKind::Do(None, vec![DoBind { name: Some("a".to_string()), expr: ex(ExprKind::Tuple(vec![])) }])),
                ],
            ))),
        ],
    };
    Module {
        paradigms: vec!["functional".to_string()],
        imports: vec![],
        monads: vec![("M".to_string(), sp(3, 4))],
        items: vec![
            Item::Func(Func {
                exported: true,
                is_async: false,
                name: "main".to_string(),
                span: sp(0, 9),
                generics: vec!["T".to_string()],
                params: vec![],
                ret: Type::Named("int32".to_string(), vec![Type::Slice(Box::new(Type::RawPtr(Box::new(Type::Unit))))]),
                body,
            }),
            Item::Struct(Struct {
                exported: false,
                name: "P".to_string(),
                generics: vec![],
                fields: vec![Field { name: "a".to_string(), ty: Type::Named("string".to_string(), vec![]) }],
            }),
            Item::Impl(Impl { iface: None, ty: "P".to_string(), span: sp(5, 6), methods: vec![] }),
        ],
    }
}

#[test]
fn dump_is_the_pretty_debug_layout() {
    // For plain ASCII text and no floats, chars or ifs, the dump coincides
    // with the derived pretty Debug form of the tree.
    let m = sample();
    assert_eq!(render_module(&m, &vec![]), format!("{:#?}", m));
}

#[test]
fn dump_escapes_and_writes_float_bits() {
    let m = Module {
        paradigms: vec![],
        imports: vec!["caf\u{e9}".to_string()],
        monads: vec![],
        items: vec![Item::Func(Func {
            exported: false,
            is_async: true,
            name: "f".to_string(),
            span: sp(0, 0),
            generics: vec![],
            params: vec![],
            ret: Type::Unit,
            body: Block {
                stmts: vec![
                    Stmt::Expr(ex(ExprKind::Float("2.5".to_string(), None))),
                    Stmt::Expr(ex(ExprKind::Char('\n'))),
                ],
            },
        })],
    };
    let out = render_module(&m, &vec![("2.5".to_string(), 2.5f64.to_bits())]);
    assert!(out.contains("\"caf\\u{e9}\""), "{out}");
    assert!(out.contains("Float(\n"), "{out}");
    assert!(out.contains("0x4004000000000000,"), "{out}");
    assert!(out.contains("'\\u{a}'"), "{out}");
    assert!(out.contains("is_async: true,"), "{out}");
    assert!(out.starts_with("Module {\n    paradigms: [],\n    imports: [\n        \"caf\\u{e9}\",\n    ],\n"), "{out}");
}

#[test]
fn dump_of_loop_control_compound_assignment_and_runes() {
    let m = Module {
        paradigms: vec![],
        imports: vec![],
        monads: vec![],
        items: vec![Item::Func(Func {
            exported: false,
            is_async: false,
            name: "f".to_string(),
            span: sp(0, 0),
            generics: vec![],
            params: vec![],
            ret: Type::Unit,
            body: Block {
                stmts: vec![
                    Stmt::Break(sp(1, 6)),
                    Stmt::Continue(sp(7, 15)),
                    Stmt::AssignOp(BinOp::Pow, ex(ExprKind::Ident("x".to_string())), ex(ExprKind::Rune('\u{1f600}'))),
                ],
            },
        })],
    };
    let out = render_module(&m, &vec![]);
    let lines: Vec<&str> = out.lines().map(|l| l.trim()).collect();
    let at = lines.iter().position(|l| *l == "stmts: [").expect("stmts");
    assert_eq!(&lines[at + 1..at + 5], &["Break,", "Continue,", "AssignOp(", "Pow,"]);
    assert!(out.contains("Rune(\n"), "{out}");
    assert!(out.contains("'\\u{1f600}'"), "{out}");
}
