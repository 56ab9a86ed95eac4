use dusk::codegen::llvm::Module as IrModule;
use dusk::codegen::lower::{
    arith_opcode, cmp_opcode, emit_funcval_thunk, emit_main_wrapper, emit_vtables, int_ty, lower_ty,
    main_is_argc_argv, shift_amount_safe, tag_bits, ty_name, CTy, Ctx, Nom,
};
use dusk::diag::Span;
use dusk::parser::ast::{
    BinOp, Block, Enum, Expr, ExprKind, Field, Foreign, ForeignFunc, Func, Impl, Interface, Item, MethodSig, Module,
    Param, Struct, Type, Variant,
};

fn named(n: &str) -> Type {
    Type::Named(n.to_string(), vec![])
}

fn field(n: &str, t: Type) -> Field {
    Field { name: n.to_string(), ty: t }
}

fn param(n: &str, t: Type) -> Param {
    Param { using: false, name: n.to_string(), ty: t }
}

fn func(name: &str, params: Vec<Param>, ret: Type) -> Func {
    Func {
        is_async: false, span: Span { lo: 0, hi: 0 },
        exported: false,
        name: name.to_string(),
        generics: vec![],
        params,
        ret,
        body: Block { stmts: vec![] },
    }
}

fn sample() -> Module {
    let point = Struct {
        exported: false,
        name: "Point".to_string(),
        generics: vec![],
        fields: vec![field("x", named("int32")), field("y", named("int64"))],
    };
    let shape = Enum {
        exported: false,
        name: "Shape".to_string(),
        generics: vec![],
        variants: vec![
            Variant { name: "Empty".to_string(), fields: vec![] },
            Variant { name: "At".to_string(), fields: vec![field("p", named("Point"))] },
        ],
    };
    let area = Interface {
        exported: false,
        name: "Area".to_string(),
        generics: vec![],
        methods: vec![MethodSig {
            name: "area".to_string(),
            params: vec![param("scale", named("int64"))],
            ret: named("int64"),
        }],
    };
    let imp = Impl {
        span: Span { lo: 0, hi: 0 },
        iface: Some("Area".to_string()),
        ty: "Point".to_string(),
        methods: vec![func("area", vec![param("scale", named("int64"))], named("int64"))],
    };
    let main = func(
        "main",
        vec![param("argc", named("int32")), param("argv", Type::Slice(Box::new(named("string"))))],
        named("int32"),
    );
    let libc = Foreign {
        span: Span { lo: 0, hi: 0 },
        abi: "C".to_string(),
        funcs: vec![ForeignFunc {
            name: "write".to_string(),
            params: vec![param("fd", named("int32")), param("buf", Type::RawPtr(Box::new(named("int8"))))],
            ret: named("int64"),
        }],
    };
    Module {
        paradigms: vec![],
        monads: vec![],
        imports: vec![],
        items: vec![
            Item::Struct(point),
            Item::Enum(shape),
            Item::Interface(area),
            Item::Impl(imp),
            Item::Func(main),
            Item::Foreign(libc),
        ],
    }
}

#[test]
fn lowered_types_spell_as_llvm() {
    assert_eq!(CTy::Int(32).ll(), "i32");
    assert_eq!(CTy::Ptr(Box::new(CTy::Char)).ll(), "{ ptr, i64 }");
    assert_eq!(CTy::Array(Box::new(CTy::Int(8)), 16).ll(), "[16 x i8]");
    assert_eq!(CTy::Tuple(vec![CTy::Int(64), CTy::Bool, CTy::Struct("P".to_string())]).ll(), "{ i64, i1, %P }");
    assert_eq!(CTy::Tuple(vec![]).ll(), "{  }");
    assert_eq!(CTy::Closure(vec![], Box::new(CTy::Void)).ll(), "{ ptr, ptr }");
    assert_eq!(ty_name(&CTy::Enum("Shape".to_string())), "Shape");
    assert_eq!(ty_name(&CTy::F64), "double");
}

#[test]
fn type_predicates() {
    assert!(CTy::Slice(Box::new(CTy::Char)).is_aggregate());
    assert!(!CTy::RawPtr(Box::new(CTy::Char)).is_aggregate());
    assert!(CTy::F32.is_float());
    assert_eq!(CTy::Bool.int_bits(), Some(1));
    assert_eq!(CTy::Char.int_bits(), Some(8));
    assert_eq!(CTy::F64.int_bits(), None);
    assert_eq!(tag_bits(2), 8);
    assert_eq!(tag_bits(257), 16);
    assert_eq!(tag_bits(70000), 32);
}

#[test]
fn context_records_kinds_and_signatures() {
    let m = sample();
    let ctx = Ctx::new(&m);
    assert_eq!(ctx.nom(&"Point".to_string()), Nom::Struct);
    assert_eq!(ctx.nom(&"Shape".to_string()), Nom::Enum);
    assert_eq!(ctx.nom(&"Area".to_string()), Nom::Iface);
    assert_eq!(ctx.nom(&"main".to_string()), Nom::Absent);
    let fs = ctx.fields(&"Point".to_string()).unwrap();
    assert_eq!(fs.len(), 2);
    assert_eq!(fs[1].1.ll(), "i64");
    let (idx, ty) = ctx.field(&"Point".to_string(), &"y".to_string()).unwrap();
    assert_eq!(idx, 1);
    assert_eq!(ty.ll(), "i64");
    assert!(ctx.field(&"Point".to_string(), &"z".to_string()).is_none());
    let v = ctx.variant(&"Shape".to_string(), &"At".to_string()).unwrap();
    assert_eq!(v.tag, 1);
    assert_eq!(v.fields[0].1.ll(), "%Point");
    let (slot, meth) = ctx.iface_method(&"Area".to_string(), &"area".to_string()).unwrap();
    assert_eq!(slot, 0);
    assert_eq!(meth.ret.ll(), "i64");
    let (ret, params) = ctx.fns.get(&"write".to_string()).unwrap();
    assert_eq!(ret.ll(), "i64");
    assert_eq!(params.len(), 2);
    assert_eq!(params[1].ll(), "ptr");
    let (_, mparams) = ctx.methods.get(&"Point.area".to_string()).unwrap();
    assert_eq!(mparams[0].ll(), "%Point");
    assert_eq!(mparams[1].ll(), "i64");
    assert!(ctx.fns.get(&"area".to_string()).is_none());
}

#[test]
fn lowering_resolves_names_by_kind() {
    let ctx = Ctx::new(&sample());
    assert_eq!(lower_ty(&named("Point"), &ctx.noms).ll(), "%Point");
    assert_eq!(lower_ty(&named("Area"), &ctx.noms).ll(), "{ ptr, ptr }");
    assert_eq!(lower_ty(&named("Nope"), &ctx.noms).ll(), "i64");
    assert_eq!(lower_ty(&named("string"), &ctx.noms).ll(), "ptr");
    assert_eq!(lower_ty(&Type::Ptr(Box::new(Type::Unit)), &ctx.noms).ll(), "ptr");
    assert_eq!(lower_ty(&Type::Ptr(Box::new(named("int8"))), &ctx.noms).ll(), "{ ptr, i64 }");
    assert_eq!(lower_ty(&Type::Array(Box::new(named("rune")), 4), &ctx.noms).ll(), "[4 x i32]");
}

#[test]
fn sizes_follow_the_sequential_layout() {
    let ctx = Ctx::new(&sample());
    assert_eq!(ctx.size_align(&CTy::Struct("Point".to_string())), (16, 8));
    assert_eq!(ctx.size_align(&CTy::Enum("Shape".to_string())), (24, 8));
    assert_eq!(ctx.enum_size_align(&"Shape".to_string()), (24, 8));
    assert_eq!(ctx.size_align(&CTy::Tuple(vec![CTy::Bool, CTy::Int(64), CTy::Char])), (24, 8));
    assert_eq!(ctx.size_align(&CTy::Array(Box::new(CTy::Int(16)), 5)), (10, 2));
    assert_eq!(ctx.size_align(&CTy::Void), (0, 1));
    assert_eq!(ctx.size_align(&CTy::Struct("Undeclared".to_string())), (8, 8));
    let def = ctx.enum_def(&"Shape".to_string()).unwrap();
    assert_eq!(ctx.blob_lanes(def), 2);
    let at = ctx.variant(&"Shape".to_string(), &"At".to_string()).unwrap();
    assert_eq!(ctx.offsets(at), vec![0]);
    let fs = ctx.fields(&"Point".to_string()).unwrap();
    assert_eq!(ctx.layout(fs), (16, 8));
}

#[test]
fn vtables_and_thunks_forward_to_the_method() {
    let ctx = Ctx::new(&sample());
    let mut m = IrModule::new("m", "x86_64-pc-linux-gnu");
    emit_vtables(&mut m, &ctx);
    let ir = m.render();
    assert!(ir.contains("@vtable.Area.Point = constant [1 x ptr] [ptr @thunk.Area.Point.area]"), "{ir}");
    assert!(ir.contains(
        "define i64 @thunk.Area.Point.area(ptr %d, i64 %a0) {\nentry:\n  %r = call i64 @Point.area(ptr %d, i64 %a0)\n  ret i64 %r\n}"
    ), "{ir}");
}

#[test]
fn funcval_thunk_drops_the_env() {
    let mut m = IrModule::new("m", "x86_64-pc-linux-gnu");
    emit_funcval_thunk(&mut m, &"f".to_string(), &CTy::Void, &vec![CTy::Int(64), CTy::Bool]);
    let ir = m.render();
    assert!(ir.contains(
        "define void @f.funcval(ptr %env, i64 %a0, i1 %a1) {\nentry:\n  call void @f(i64 %a0, i1 %a1)\n  ret void\n}"
    ), "{ir}");
}

#[test]
fn argc_argv_main_gets_a_c_entry_wrapper() {
    let m = sample();
    let ctx = Ctx::new(&m);
    let main = match &m.items[4] {
        Item::Func(f) => f,
        _ => unreachable!(),
    };
    assert!(main_is_argc_argv(&ctx, main));
    let w = emit_main_wrapper(&ctx, main);
    assert!(w.starts_with("define i32 @main(i32 %argc, ptr %argv) {\nentry:\n"));
    assert!(w.contains("  %r = call i32 @dusk__main(i32 %argc, { ptr, i64 } %s1)\n  ret i32 %r\n}"));
    let plain = func("main", vec![], named("int32"));
    assert!(!main_is_argc_argv(&ctx, &plain));
}

#[test]
fn arithmetic_opcodes_by_operand_kind() {
    assert_eq!(arith_opcode(BinOp::Add, false), "add");
    assert_eq!(arith_opcode(BinOp::Div, false), "sdiv");
    assert_eq!(arith_opcode(BinOp::Mod, false), "srem");
    assert_eq!(arith_opcode(BinOp::Div, true), "fdiv");
    assert_eq!(arith_opcode(BinOp::Mod, true), "frem");
    assert_eq!(arith_opcode(BinOp::Eq, true), "add");
}

#[test]
fn comparison_opcodes_are_signed_or_ordered() {
    assert_eq!(cmp_opcode(BinOp::Lt, false), ("icmp", "slt"));
    assert_eq!(cmp_opcode(BinOp::Ge, false), ("icmp", "sge"));
    assert_eq!(cmp_opcode(BinOp::Ne, true), ("fcmp", "one"));
    assert_eq!(cmp_opcode(BinOp::Le, true), ("fcmp", "ole"));
    assert_eq!(cmp_opcode(BinOp::Add, false), ("icmp", "eq"));
}

#[test]
fn literal_suffix_sets_the_width() {
    assert_eq!(int_ty(&Some("u8".to_string())).ll(), "i8");
    assert_eq!(int_ty(&Some("i16".to_string())).ll(), "i16");
    assert_eq!(int_ty(&Some("u32".to_string())).ll(), "i32");
    assert_eq!(int_ty(&Some("u64".to_string())).ll(), "i64");
    assert_eq!(int_ty(&None).ll(), "i64");
}

#[test]
fn constant_shift_in_range_is_safe() {
    let lit = |v: i64| Expr { kind: ExprKind::Int(v, None), span: Span { lo: 0, hi: 1 } };
    assert!(shift_amount_safe(&lit(3), &CTy::Int(64)));
    assert!(!shift_amount_safe(&lit(64), &CTy::Int(64)));
    assert!(shift_amount_safe(&lit(7), &CTy::Int(8)));
    assert!(!shift_amount_safe(&lit(8), &CTy::Int(8)));
    assert!(!shift_amount_safe(&lit(-1), &CTy::Int(32)));
    let var = Expr { kind: ExprKind::Ident("n".to_string()), span: Span { lo: 0, hi: 1 } };
    assert!(!shift_amount_safe(&var, &CTy::Int(64)));
}

#[test]
fn async_functions_get_their_signature_and_future_instance() {
    let mut fetch = func("fetch", vec![param("n", named("int32")), param("p", named("Point"))], named("int64"));
    fetch.is_async = true;
    let plain = func("plain", vec![], named("int64"));
    let m = Module {
        paradigms: vec![],
        monads: vec![],
        imports: vec![],
        items: vec![
            Item::Struct(Struct { exported: false, name: "Point".to_string(), generics: vec![], fields: vec![] }),
            Item::Func(fetch),
            Item::Func(plain),
        ],
    };
    let ctx = Ctx::new(&m);
    let info = ctx.async_fns.get(&"fetch".to_string()).expect("async fn recorded");
    assert_eq!(info.fut_struct, "Future$int64");
    assert_eq!(info.ret.ll(), "i64");
    assert_eq!(info.params.len(), 2);
    assert_eq!(info.params[0].ll(), "i32");
    assert_eq!(info.params[1].ll(), "%Point");
    assert!(ctx.async_fns.get(&"plain".to_string()).is_none());
}
