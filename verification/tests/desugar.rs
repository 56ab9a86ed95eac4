use dusk::desugar::run;
use dusk::diag::Span;
use dusk::parser::ast::{
    BinOp, Block, DoBind, Expr, ExprKind, Func, Item, Let, Module, Param, Stmt, Struct, Field, Type,
};

fn sp() -> Span {
    Span { lo: 3, hi: 9 }
}

fn ex(kind: ExprKind) -> Expr {
    Expr { kind, span: sp() }
}

fn lit(v: i64) -> Expr {
    ex(ExprKind::Int(v, None))
}

fn ident(n: &str) -> Expr {
    ex(ExprKind::Ident(n.to_string()))
}

fn named(n: &str) -> Type {
    Type::Named(n.to_string(), vec![])
}

fn param(n: &str, ty: Type) -> Param {
    Param { using: false, name: n.to_string(), ty }
}

fn func(name: &str, params: Vec<Param>, ret: Type, stmts: Vec<Stmt>) -> Func {
    Func { is_async: false, span: Span { lo: 0, hi: 0 }, exported: false, name: name.to_string(), generics: vec![], params, ret, body: Block { stmts } }
}

fn bind(name: Option<&str>, e: Expr) -> DoBind {
    DoBind { name: name.map(|s| s.to_string()), expr: e }
}

fn let_r(value: Expr) -> Stmt {
    Stmt::Let(Let {
        mutable: false,
        is_ref: false,
        infer: true,
        binds: vec![dusk::parser::ast::Bind { name: "r".to_string(), ty: None }],
        value,
    })
}

// func bind(x: int64, f: (int64) -> int64) -> int64 { return f(x) }
fn bind_fn(name: &str, a: Type, b: Type) -> Item {
    Item::Func(func(
        name,
        vec![param("x", named("int64")), param("f", Type::Func(vec![a], Box::new(b)))],
        named("int64"),
        vec![Stmt::Return(Some(ex(ExprKind::Call(Box::new(ident("f")), vec![ident("x")]))))],
    ))
}

// func unit(x: int64) -> int64 { return x }
fn unit_fn(name: &str) -> Item {
    Item::Func(func(name, vec![param("x", named("int64"))], named("int64"), vec![Stmt::Return(Some(ident("x")))]))
}

fn main_with(stmts: Vec<Stmt>) -> Item {
    Item::Func(func("main", vec![], named("int32"), stmts))
}

fn module(items: Vec<Item>) -> Module {
    Module { paradigms: vec![], imports: vec![], monads: vec![], items }
}

fn main_first_stmt(m: &Module) -> &Stmt {
    let f = m
        .items
        .iter()
        .find_map(|it| match it {
            Item::Func(f) if f.name == "main" => Some(f),
            _ => None,
        })
        .unwrap();
    &f.body.stmts[0]
}

// r := do { a <- 10; b <- 20; a + b }
fn sum_do(monad: Option<&str>) -> Expr {
    ex(ExprKind::Do(
        monad.map(|s| s.to_string()),
        vec![
            bind(Some("a"), lit(10)),
            bind(Some("b"), lit(20)),
            bind(None, ex(ExprKind::Binary(BinOp::Add, Box::new(ident("a")), Box::new(ident("b"))))),
        ],
    ))
}

fn check(e: &Expr) {
    assert!(!matches!(e.kind, ExprKind::Do(..)), "stray do node");
    match &e.kind {
        ExprKind::Call(f, args) => {
            check(f);
            args.iter().for_each(check);
        }
        ExprKind::Lambda(l) => l.body.stmts.iter().for_each(check_stmt),
        ExprKind::Binary(_, a, b) => {
            check(a);
            check(b);
        }
        _ => {}
    }
}

fn check_stmt(s: &Stmt) {
    match s {
        Stmt::Let(l) => check(&l.value),
        Stmt::Return(Some(e)) | Stmt::Expr(e) => check(e),
        _ => {}
    }
}

#[test]
fn do_block_lowers_to_bind_and_unit() {
    let m = run(module(vec![
        bind_fn("bind", named("int64"), named("int64")),
        unit_fn("unit"),
        main_with(vec![let_r(sum_do(None)), Stmt::Return(Some(lit(0)))]),
    ]));
    let Stmt::Let(l) = main_first_stmt(&m) else {
        panic!("expected let")
    };
    // Outer call is bind(10, lambda ...)
    let ExprKind::Call(f, args) = &l.value.kind else {
        panic!("expected call, got {:?}", l.value.kind)
    };
    assert!(matches!(&f.kind, ExprKind::Ident(n) if n == "bind"));
    assert_eq!(args.len(), 2);
    assert!(matches!(args[1].kind, ExprKind::Lambda(_)));
}

#[test]
fn named_monad_lowers_to_namespaced_pair() {
    let m = run(module(vec![main_with(vec![let_r(sum_do(Some("Identity"))), Stmt::Return(Some(lit(0)))])]));
    let Stmt::Let(l) = main_first_stmt(&m) else {
        panic!("expected let")
    };
    let ExprKind::Call(f, _) = &l.value.kind else {
        panic!("expected call, got {:?}", l.value.kind)
    };
    assert!(
        matches!(&f.kind, ExprKind::Ident(n) if n == "Identity.bind"),
        "outer call should be Identity.bind, got {:?}",
        f.kind
    );
}

#[test]
fn no_do_blocks_remain() {
    let m = run(module(vec![
        bind_fn("bind", named("int64"), named("int64")),
        unit_fn("unit"),
        main_with(vec![
            let_r(ex(ExprKind::Do(None, vec![bind(Some("a"), lit(1)), bind(None, ident("a"))]))),
            Stmt::Return(Some(lit(0))),
        ]),
    ]));
    for it in &m.items {
        if let Item::Func(f) = it {
            f.body.stmts.iter().for_each(check_stmt);
        }
    }
}

#[test]
fn chain_nests_binds_in_order_and_lifts_last_with_unit() {
    let m = run(module(vec![
        bind_fn("bind", named("int64"), named("int64")),
        main_with(vec![let_r(sum_do(None))]),
    ]));
    let Stmt::Let(l) = main_first_stmt(&m) else { panic!() };
    // bind(10, lambda (a: int64) -> int64 { return bind(20, lambda (b) { return unit(a + b) }) })
    let ExprKind::Call(_, args) = &l.value.kind else { panic!() };
    assert!(matches!(args[0].kind, ExprKind::Int(10, None)));
    let ExprKind::Lambda(lam) = &args[1].kind else { panic!() };
    assert_eq!(lam.params.len(), 1);
    assert_eq!(lam.params[0].name, "a");
    assert!(matches!(&lam.params[0].ty, Type::Named(n, a) if n == "int64" && a.is_empty()));
    let Stmt::Return(Some(inner)) = &lam.body.stmts[0] else { panic!() };
    let ExprKind::Call(g, args2) = &inner.kind else { panic!() };
    assert!(matches!(&g.kind, ExprKind::Ident(n) if n == "bind"));
    assert!(matches!(args2[0].kind, ExprKind::Int(20, None)));
    let ExprKind::Lambda(lam2) = &args2[1].kind else { panic!() };
    assert_eq!(lam2.params[0].name, "b");
    let Stmt::Return(Some(last)) = &lam2.body.stmts[0] else { panic!() };
    let ExprKind::Call(u, args3) = &last.kind else { panic!() };
    assert!(matches!(&u.kind, ExprKind::Ident(n) if n == "unit"));
    assert_eq!(args3.len(), 1);
    assert!(matches!(args3[0].kind, ExprKind::Binary(BinOp::Add, _, _)));
    assert_eq!(last.span, sp());
}

#[test]
fn continuation_types_come_from_bind_signature() {
    let m = run(module(vec![
        bind_fn("bind", named("bool"), named("uint8")),
        main_with(vec![let_r(ex(ExprKind::Do(None, vec![bind(Some("x"), lit(1)), bind(None, ident("x"))])))]),
    ]));
    let Stmt::Let(l) = main_first_stmt(&m) else { panic!() };
    let ExprKind::Call(_, args) = &l.value.kind else { panic!() };
    let ExprKind::Lambda(lam) = &args[1].kind else { panic!() };
    assert!(matches!(&lam.params[0].ty, Type::Named(n, _) if n == "bool"));
    assert!(matches!(&lam.ret, Type::Named(n, _) if n == "uint8"));
}

#[test]
fn bare_expression_bind_gets_reserved_name() {
    let m = run(module(vec![main_with(vec![let_r(ex(ExprKind::Do(
        None,
        vec![bind(None, lit(5)), bind(None, lit(6))],
    )))])]));
    let Stmt::Let(l) = main_first_stmt(&m) else { panic!() };
    let ExprKind::Call(_, args) = &l.value.kind else { panic!() };
    let ExprKind::Lambda(lam) = &args[1].kind else { panic!() };
    assert_eq!(lam.params[0].name, "$do0");
    // no bind function in the module: int64 on both sides
    assert!(matches!(&lam.ret, Type::Named(n, _) if n == "int64"));
}

#[test]
fn empty_do_is_unit_of_zero() {
    let m = run(module(vec![main_with(vec![let_r(ex(ExprKind::Do(Some("M".to_string()), vec![])))])]));
    let Stmt::Let(l) = main_first_stmt(&m) else { panic!() };
    let ExprKind::Call(u, args) = &l.value.kind else { panic!() };
    assert!(matches!(&u.kind, ExprKind::Ident(n) if n == "M.unit"));
    assert_eq!(args.len(), 1);
    assert!(matches!(args[0].kind, ExprKind::Int(0, None)));
}

#[test]
fn nested_do_inside_bind_value_is_expanded() {
    let inner = ex(ExprKind::Do(None, vec![bind(None, lit(7))]));
    let m = run(module(vec![main_with(vec![let_r(ex(ExprKind::Do(
        None,
        vec![bind(Some("a"), inner), bind(None, ident("a"))],
    )))])]));
    for it in &m.items {
        if let Item::Func(f) = it {
            f.body.stmts.iter().for_each(check_stmt);
        }
    }
    let Stmt::Let(l) = main_first_stmt(&m) else { panic!() };
    let ExprKind::Call(_, args) = &l.value.kind else { panic!() };
    let ExprKind::Call(u, _) = &args[0].kind else { panic!() };
    assert!(matches!(&u.kind, ExprKind::Ident(n) if n == "unit"));
}

#[test]
fn other_items_and_directives_are_kept() {
    let m = run(Module {
        paradigms: vec!["functional".to_string()],
        monads: vec![],
        imports: vec!["std.io".to_string()],
        items: vec![Item::Struct(Struct {
            exported: true,
            name: "P".to_string(),
            generics: vec![],
            fields: vec![Field { name: "x".to_string(), ty: named("int64") }],
        })],
    });
    assert_eq!(m.paradigms, vec!["functional".to_string()]);
    assert_eq!(m.imports, vec!["std.io".to_string()]);
    let Item::Struct(s) = &m.items[0] else { panic!() };
    assert_eq!(s.name, "P");
    assert_eq!(s.fields[0].name, "x");
}
