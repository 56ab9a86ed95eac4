use dusk::diag::Span;
use dusk::parser::ast::{
    Bind, Block, Expr, ExprKind, Field, Foreign, ForeignFunc, Func, Item, Let, Module, Param, Stmt,
    Struct, Type, UnOp,
};
use dusk::privatize::{privatize, suffix_for, suffix_from_stem};

fn ex(kind: ExprKind) -> Expr {
    Expr { kind, span: Span { lo: 0, hi: 0 } }
}

fn ident(n: &str) -> Expr {
    ex(ExprKind::Ident(n.to_string()))
}

fn named(n: &str) -> Type {
    Type::Named(n.to_string(), vec![])
}

fn func(name: &str, exported: bool, ret: Type, stmts: Vec<Stmt>) -> Func {
    Func { is_async: false, span: Span { lo: 0, hi: 0 }, exported, name: name.to_string(), generics: vec![], params: vec![], ret, body: Block { stmts } }
}

fn module(items: Vec<Item>) -> Module {
    Module { paradigms: vec![], imports: vec![], monads: vec![], items }
}

fn names(m: &Module) -> Vec<String> {
    m.items
        .iter()
        .filter_map(|it| match it {
            Item::Func(f) => Some(f.name.clone()),
            Item::Struct(s) => Some(s.name.clone()),
            _ => None,
        })
        .collect()
}

#[test]
fn private_func_renamed_and_call_follows() {
    // func helper() -> int64 { return 1 }
    // export func visible() -> int64 { return helper() }
    let mut m = module(vec![
        Item::Func(func("helper", false, named("int64"), vec![Stmt::Return(Some(ex(ExprKind::Int(1, None))))])),
        Item::Func(func(
            "visible",
            true,
            named("int64"),
            vec![Stmt::Return(Some(ex(ExprKind::Call(Box::new(ident("helper")), vec![]))))],
        )),
    ]);
    privatize(&mut m, "lib_1");
    let n = names(&m);
    assert!(n.contains(&"helper__lib_1".to_string()), "{n:?}");
    assert!(n.contains(&"visible".to_string()), "exported name must not change: {n:?}");
    let Item::Func(v) = &m.items[1] else { panic!() };
    let Stmt::Return(Some(e)) = &v.body.stmts[0] else { panic!() };
    let ExprKind::Call(f, _) = &e.kind else { panic!() };
    assert!(matches!(&f.kind, ExprKind::Ident(n) if n == "helper__lib_1"), "{:?}", f.kind);
}

#[test]
fn local_shadow_is_not_renamed() {
    // func helper() -> int64 { return 1 }
    // export func f() -> int64 { helper := 5; return helper }
    let mut m = module(vec![
        Item::Func(func("helper", false, named("int64"), vec![Stmt::Return(Some(ex(ExprKind::Int(1, None))))])),
        Item::Func(func(
            "f",
            true,
            named("int64"),
            vec![
                Stmt::Let(Let {
                    mutable: false,
                    is_ref: false,
                    infer: true,
                    binds: vec![Bind { name: "helper".to_string(), ty: None }],
                    value: ex(ExprKind::Int(5, None)),
                }),
                Stmt::Return(Some(ident("helper"))),
            ],
        )),
    ]);
    privatize(&mut m, "x_1");
    let Item::Func(f) = &m.items[1] else { panic!() };
    let Stmt::Return(Some(e)) = &f.body.stmts[1] else { panic!() };
    assert!(matches!(&e.kind, ExprKind::Ident(n) if n == "helper"), "{:?}", e.kind);
}

#[test]
fn private_struct_rename_covers_types_literals_and_impls() {
    // struct P { x: int64 }
    // export func mk() -> P { return P { x: 1 } }
    let mut m = module(vec![
        Item::Struct(Struct {
            exported: false,
            name: "P".to_string(),
            generics: vec![],
            fields: vec![Field { name: "x".to_string(), ty: named("int64") }],
        }),
        Item::Func(func(
            "mk",
            true,
            named("P"),
            vec![Stmt::Return(Some(ex(ExprKind::StructLit(
                "P".to_string(),
                vec![("x".to_string(), ex(ExprKind::Int(1, None)))],
            ))))],
        )),
    ]);
    privatize(&mut m, "s_2");
    let Item::Struct(s) = &m.items[0] else { panic!() };
    assert_eq!(s.name, "P__s_2");
    let Item::Func(f) = &m.items[1] else { panic!() };
    assert!(matches!(&f.ret, Type::Named(n, _) if n == "P__s_2"), "{:?}", f.ret);
    let Stmt::Return(Some(e)) = &f.body.stmts[0] else { panic!() };
    assert!(matches!(&e.kind, ExprKind::StructLit(n, _) if n == "P__s_2"));
}

#[test]
fn foreign_names_are_never_renamed() {
    // foreign "C" { func abs(n: int32) -> int32 }
    // export func f() -> int32 { return abs(-1) }
    let mut m = module(vec![
        Item::Foreign(Foreign {
            span: Span { lo: 0, hi: 0 },
            abi: "C".to_string(),
            funcs: vec![ForeignFunc {
                name: "abs".to_string(),
                params: vec![Param { using: false, name: "n".to_string(), ty: named("int32") }],
                ret: named("int32"),
            }],
        }),
        Item::Func(func(
            "f",
            true,
            named("int32"),
            vec![Stmt::Return(Some(ex(ExprKind::Call(
                Box::new(ident("abs")),
                vec![ex(ExprKind::Unary(UnOp::Neg, Box::new(ex(ExprKind::Int(1, None)))))],
            ))))],
        )),
    ]);
    privatize(&mut m, "ffi_1");
    let Item::Foreign(fb) = &m.items[0] else { panic!() };
    assert_eq!(fb.funcs[0].name, "abs");
    let Item::Func(f) = &m.items[1] else { panic!() };
    let Stmt::Return(Some(e)) = &f.body.stmts[0] else { panic!() };
    let ExprKind::Call(callee, _) = &e.kind else { panic!() };
    assert!(matches!(&callee.kind, ExprKind::Ident(n) if n == "abs"));
}

#[test]
fn module_without_private_items_is_untouched() {
    let mut m = module(vec![Item::Func(func("f", true, named("int64"), vec![Stmt::Return(Some(ident("f")))]))]);
    privatize(&mut m, "z_0");
    assert_eq!(names(&m), vec!["f"]);
}

#[test]
fn suffix_comes_from_the_file_stem_and_index() {
    assert_eq!(suffix_for("/lib/std/my-mod.dusk", 3), "my_mod_3");
    assert_eq!(suffix_for("io.dusk", 12), "io_12");
    assert_eq!(suffix_for("", 0), "mod_0");
    assert_eq!(suffix_from_stem(Some("a.b"), 7), "a_b_7");
    assert_eq!(suffix_from_stem(None, 1), "mod_1");
}

#[test]
fn same_stem_at_different_positions_gets_different_suffixes() {
    let a = suffix_for("/x/util.dusk", 1);
    let b = suffix_for("/y/util.dusk", 2);
    assert_eq!(a, "util_1");
    assert_eq!(b, "util_2");
    assert_ne!(a, b);
    // a stem that itself ends in `_<digits>` still keeps positions apart
    assert_ne!(suffix_from_stem(Some("a_1"), 2), suffix_from_stem(Some("a"), 12));
}

#[test]
fn stem_follows_path_component_rules() {
    assert_eq!(suffix_for("foo.txt/.", 0), "foo_0");
    assert_eq!(suffix_for("a/..", 1), "mod_1");
    assert_eq!(suffix_for("/", 2), "mod_2");
    assert_eq!(suffix_for(".hidden", 3), "_hidden_3");
    assert_eq!(suffix_for("..a", 4), "__4");
    assert_eq!(suffix_for("dir/a.b.c", 5), "a_b_5");
    assert_eq!(suffix_for("x.", 6), "x_6");
    assert_eq!(suffix_for("lib/core//", 7), "core_7");
}
