use dusk::codegen::lower::{CTy, Ctx, EnumDef, Table, VariantDef};
use dusk::codegen::typing::{as_enum_variant, expr_type, lambda_captures, match_result_ty};
use dusk::diag::Span;
use dusk::parser::ast::{Arm, BinOp, Block, Expr, ExprKind, Lambda, Param, Pattern, Stmt, Type, UnOp};

fn e(kind: ExprKind) -> Expr {
    Expr { kind, span: Span::new(0, 0) }
}

fn id(n: &str) -> Expr {
    e(ExprKind::Ident(n.to_string()))
}

fn ctx() -> Ctx {
    let mut fns = Table::new();
    fns.insert("f".to_string(), (CTy::F64, vec![]));
    Ctx {
        structs: vec![("Pt".to_string(), vec![("a".to_string(), CTy::Int(16)), ("b".to_string(), CTy::Bool)])],
        enums: vec![EnumDef {
            name: "Color".to_string(),
            tag_bits: 8,
            variants: vec![VariantDef { name: "Red".to_string(), tag: 0, fields: vec![] }],
        }],
        ifaces: vec![],
        impls: vec![],
        fns,
        methods: Table::new(),
        noms: Table::new(),
        async_fns: Table::new(),
    }
}

fn locals() -> Table<(CTy, String)> {
    let mut l = Table::new();
    l.insert("x".to_string(), (CTy::Int(32), "%x".to_string()));
    l.insert("s".to_string(), (CTy::Slice(Box::new(CTy::Int(8))), "%s".to_string()));
    l.insert("err".to_string(), (CTy::Error, "%err".to_string()));
    l.insert("p".to_string(), (CTy::Struct("Pt".to_string()), "%p".to_string()));
    l
}

fn t(x: &Expr) -> String {
    format!("{:?}", expr_type(&ctx(), &locals(), x))
}

#[test]
fn literal_and_local_types() {
    assert_eq!(t(&e(ExprKind::Int(1, Some("u16".to_string())))), "Int(16)");
    assert_eq!(t(&e(ExprKind::Int(1, None))), "Int(64)");
    assert_eq!(t(&e(ExprKind::Rune('x'))), "Int(32)");
    assert_eq!(t(&e(ExprKind::Str("a".to_string()))), "RawPtr(Char)");
    assert_eq!(t(&id("x")), "Int(32)");
    assert_eq!(t(&id("nope")), "Unknown");
}

#[test]
fn operators_calls_fields_and_indexing() {
    assert_eq!(t(&e(ExprKind::Binary(BinOp::Ge, Box::new(id("x")), Box::new(id("x"))))), "Bool");
    assert_eq!(t(&e(ExprKind::Binary(BinOp::Mul, Box::new(id("x")), Box::new(id("x"))))), "Int(32)");
    assert_eq!(t(&e(ExprKind::Unary(UnOp::Deref, Box::new(id("x"))))), "Unknown");
    assert_eq!(t(&e(ExprKind::Call(Box::new(id("f")), vec![]))), "F64");
    let to_string = e(ExprKind::Call(Box::new(e(ExprKind::Field(Box::new(id("err")), "toString".to_string()))), vec![]));
    assert_eq!(t(&to_string), "RawPtr(Char)");
    assert_eq!(t(&e(ExprKind::Field(Box::new(id("p")), "b".to_string()))), "Bool");
    assert_eq!(t(&e(ExprKind::Field(Box::new(id("s")), "len".to_string()))), "Int(64)");
    assert_eq!(t(&e(ExprKind::Field(Box::new(id("s")), "ptr".to_string()))), "RawPtr(Int(8))");
    assert_eq!(t(&e(ExprKind::Field(Box::new(id("err")), "message".to_string()))), "RawPtr(Char)");
    assert_eq!(t(&e(ExprKind::Index(Box::new(id("s")), Box::new(id("x"))))), "Int(8)");
    assert_eq!(t(&e(ExprKind::StructLit("error".to_string(), vec![]))), "Error");
    assert_eq!(t(&e(ExprKind::StructLit("Pt".to_string(), vec![]))), "Struct(\"Pt\")");
    assert_eq!(t(&e(ExprKind::Tuple(vec![id("x"), e(ExprKind::Bool(true))]))), "Tuple([Int(32), Bool])");
}

#[test]
fn enum_variant_expressions_are_recognized() {
    let red = e(ExprKind::Field(Box::new(id("Color")), "Red".to_string()));
    assert_eq!(as_enum_variant(&ctx(), &red), Some(("Color".to_string(), "Red".to_string())));
    let blue = e(ExprKind::Field(Box::new(id("Color")), "Blue".to_string()));
    assert_eq!(as_enum_variant(&ctx(), &blue), None);
    assert_eq!(as_enum_variant(&ctx(), &id("Color")), None);
}

#[test]
fn match_type_comes_from_the_first_typed_arm_tail() {
    let arm = |stmts: Vec<Stmt>| Arm { pat: Pattern::Wildcard, body: Block { stmts } };
    let arms = vec![
        arm(vec![]),
        arm(vec![Stmt::Expr(id("unknown_name"))]),
        arm(vec![Stmt::Expr(id("x"))]),
        arm(vec![Stmt::Expr(e(ExprKind::Bool(true)))]),
    ];
    assert_eq!(format!("{:?}", match_result_ty(&ctx(), &locals(), &arms)), "Int(32)");
    assert_eq!(format!("{:?}", match_result_ty(&ctx(), &locals(), &vec![])), "Int(64)");
}

#[test]
fn lambda_captures_list_enclosing_locals_once() {
    let body = e(ExprKind::Call(Box::new(id("use")), vec![id("x"), id("a"), id("p"), id("x"), id("g")]));
    let l = Lambda {
        params: vec![Param { using: false, name: "a".to_string(), ty: Type::Unit }],
        ret: Type::Unit,
        body: Block { stmts: vec![Stmt::Expr(body)] },
    };
    let caps = lambda_captures(&locals(), &l);
    let names: Vec<String> = caps.iter().map(|c| format!("{}:{:?}", c.0, c.1)).collect();
    assert_eq!(names, vec!["x:Int(32)".to_string(), "p:Struct(\"Pt\")".to_string()]);
}
