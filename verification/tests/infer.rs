use dusk::diag::Span;
use dusk::mono::infer::{enum_has_variant, solve_call_args, static_type};
use dusk::mono::{flat, Subst};
use dusk::parser::ast::{
    BinOp, Block, Enum, Expr, ExprKind, Field, Func, Item, Lambda, Param, Stmt, Struct, Type, UnOp, Variant,
};

fn ty(n: &str) -> Type {
    Type::Named(n.to_string(), Vec::new())
}

fn app(n: &str, args: Vec<Type>) -> Type {
    Type::Named(n.to_string(), args)
}

fn e(kind: ExprKind) -> Expr {
    Expr { kind, span: Span::new(0, 0) }
}

fn id(n: &str) -> Expr {
    e(ExprKind::Ident(n.to_string()))
}

fn lit(v: i64) -> Expr {
    e(ExprKind::Int(v, None))
}

fn call(f: Expr, args: Vec<Expr>) -> Expr {
    e(ExprKind::Call(Box::new(f), args))
}

fn param(n: &str, t: Type) -> Param {
    Param { using: false, name: n.to_string(), ty: t }
}

fn func(name: &str, generics: &[&str], params: Vec<Param>, ret: Type, is_async: bool) -> Item {
    Item::Func(Func {
        exported: false,
        is_async,
        name: name.to_string(),
        span: Span::new(0, 0),
        generics: generics.iter().map(|g| g.to_string()).collect(),
        params,
        ret,
        body: Block { stmts: vec![] },
    })
}

fn items() -> Vec<Item> {
    vec![
        Item::Struct(Struct {
            exported: false,
            name: "Cell".to_string(),
            generics: vec!["T".to_string()],
            fields: vec![Field { name: "v".to_string(), ty: ty("T") }],
        }),
        Item::Enum(Enum {
            exported: false,
            name: "Maybe".to_string(),
            generics: vec!["T".to_string()],
            variants: vec![
                Variant { name: "Some".to_string(), fields: vec![Field { name: "0".to_string(), ty: ty("T") }] },
                Variant { name: "None".to_string(), fields: vec![] },
            ],
        }),
        func("ident", &["T"], vec![param("x", ty("T"))], ty("T"), false),
        func("make", &["T"], vec![], app("Cell", vec![ty("T")]), false),
        func(
            "bind",
            &["T", "U"],
            vec![param("x", ty("T")), param("f", Type::Func(vec![ty("T")], Box::new(ty("U"))))],
            ty("U"),
            false,
        ),
        func("count", &[], vec![], ty("int64"), false),
        func("fetch", &[], vec![], ty("bool"), true),
    ]
}

fn env() -> Subst {
    let mut env = Subst::new();
    env.insert("p".to_string(), app("Cell", vec![ty("bool")]));
    env.insert("xs".to_string(), Type::Slice(Box::new(ty("uint8"))));
    env.insert("q".to_string(), Type::Ptr(Box::new(ty("int16"))));
    env.insert("n".to_string(), ty("int32"));
    env
}

fn st(x: &Expr) -> Option<String> {
    static_type(&items(), x, &Subst::new(), &env()).map(|t| flat(&t))
}

#[test]
fn literals_have_their_types() {
    assert_eq!(st(&e(ExprKind::Int(3, Some("u8".to_string())))).as_deref(), Some("uint8"));
    assert_eq!(st(&lit(3)).as_deref(), Some("int64"));
    assert_eq!(st(&e(ExprKind::Str("s".to_string()))).as_deref(), Some("string"));
    assert_eq!(st(&e(ExprKind::Bool(true))).as_deref(), Some("bool"));
    assert_eq!(st(&e(ExprKind::Char('c'))).as_deref(), Some("char"));
    assert_eq!(st(&e(ExprKind::Rune('c'))), None);
}

#[test]
fn locals_operators_and_indexing() {
    assert_eq!(st(&id("n")).as_deref(), Some("int32"));
    assert_eq!(st(&id("missing")), None);
    let lt = e(ExprKind::Binary(BinOp::Lt, Box::new(id("n")), Box::new(lit(1))));
    assert_eq!(st(&lt).as_deref(), Some("bool"));
    let add = e(ExprKind::Binary(BinOp::Add, Box::new(id("n")), Box::new(lit(1))));
    assert_eq!(st(&add).as_deref(), Some("int32"));
    let ix = e(ExprKind::Index(Box::new(id("xs")), Box::new(lit(0))));
    assert_eq!(st(&ix).as_deref(), Some("uint8"));
    let de = e(ExprKind::Unary(UnOp::Deref, Box::new(id("q"))));
    assert_eq!(st(&de).as_deref(), Some("int16"));
    let neg = e(ExprKind::Unary(UnOp::Neg, Box::new(id("n"))));
    assert_eq!(st(&neg).as_deref(), Some("int32"));
}

#[test]
fn generic_calls_infer_their_type_arguments() {
    let c = call(id("ident"), vec![e(ExprKind::Int(1, Some("i32".to_string())))]);
    assert_eq!(st(&c).as_deref(), Some("int32"));
    let c = call(id("make"), vec![]);
    assert_eq!(st(&c), None);
}

#[test]
fn continuation_lambdas_pin_return_only_parameters() {
    let lam = e(ExprKind::Lambda(Lambda {
        params: vec![param("a", ty("T"))],
        ret: ty("U"),
        body: Block { stmts: vec![Stmt::Return(Some(e(ExprKind::Binary(BinOp::Eq, Box::new(id("a")), Box::new(lit(1))))))] },
    }));
    let c = call(id("bind"), vec![lit(5), lam]);
    assert_eq!(st(&c).as_deref(), Some("bool"));
    let it = items();
    let gf = match &it[4] {
        Item::Func(f) => f,
        _ => unreachable!(),
    };
    let (targs, missing) = solve_call_args(&it, gf, &vec![lit(5)], &Subst::new(), &env(), None);
    assert_eq!(flat(&targs[0]), "int64");
    assert_eq!(flat(&targs[1]), "int64");
    assert_eq!(missing, vec!["U".to_string()]);
    let (targs, missing) = solve_call_args(&it, gf, &vec![lit(5)], &Subst::new(), &env(), Some(&ty("string")));
    assert_eq!(flat(&targs[1]), "string");
    assert!(missing.is_empty());
}

#[test]
fn plain_async_and_builtin_calls() {
    assert_eq!(st(&call(id("count"), vec![])).as_deref(), Some("int64"));
    assert_eq!(st(&call(id("fetch"), vec![])).as_deref(), Some("Future$1$bool"));
    assert_eq!(st(&call(id("read_file"), vec![])).as_deref(), Some("$t2$string$error"));
    assert_eq!(st(&call(id("nothing"), vec![])), None);
}

#[test]
fn enum_variants_and_struct_fields() {
    let some = call(e(ExprKind::Field(Box::new(id("Maybe")), "Some".to_string())), vec![e(ExprKind::Bool(false))]);
    assert_eq!(st(&some).as_deref(), Some("Maybe$1$bool"));
    let none = e(ExprKind::Field(Box::new(id("Maybe")), "None".to_string()));
    assert_eq!(st(&none).as_deref(), Some("Maybe$1$int64"));
    let fld = e(ExprKind::Field(Box::new(id("p")), "v".to_string()));
    assert_eq!(st(&fld).as_deref(), Some("bool"));
    let lit = e(ExprKind::StructLit("Cell".to_string(), vec![("v".to_string(), e(ExprKind::Str("s".to_string())))]));
    assert_eq!(st(&lit).as_deref(), Some("Cell$1$string"));
    let plain = e(ExprKind::StructLit("Point".to_string(), vec![]));
    assert_eq!(st(&plain).as_deref(), Some("Point"));
    assert!(enum_has_variant(&items(), &"Maybe".to_string(), &"None".to_string()));
    assert!(!enum_has_variant(&items(), &"Maybe".to_string(), &"Other".to_string()));
}
