use dusk::codegen::builder::{arith_opcode, cmp_opcode, Fb};
use dusk::parser::ast::BinOp;
use dusk::codegen::lower::{CTy, Ctx, IMethod, IfaceDef, Table};

#[test]
fn temporaries_and_labels_count_up() {
    let mut f = Fb::new(CTy::Void);
    assert_eq!(f.fresh(), "%t0");
    assert_eq!(f.fresh(), "%t1");
    assert_eq!(f.new_label(), "L0");
    assert_eq!(f.op2("add", "i64", "%a", "%b"), "%t2");
    assert_eq!(f.body(), "  %t2 = add i64 %a, %b\n");
}

#[test]
fn branches_end_the_block_and_labels_reopen_it() {
    let mut f = Fb::new(CTy::Void);
    f.br("L3");
    assert!(f.is_terminated());
    f.place_label("L3");
    assert!(!f.is_terminated());
    f.cond_br("%c", "L1", "L2");
    assert_eq!(f.body(), "  br label %L3\nL3:\n  br i1 %c, label %L1, label %L2\n");
}

#[test]
fn entry_slots_are_spliced_after_the_entry_label() {
    let mut f = Fb::new(CTy::Void);
    f.place_label("entry");
    f.line("ret void");
    f.push_entry_alloca("%t9 = alloca i64");
    assert_eq!(f.body_out(), "entry:\n  %t9 = alloca i64\n  ret void\n");
}

#[test]
fn fat_pointers_are_built_and_checked() {
    let mut f = Fb::new(CTy::Void);
    assert_eq!(f.fat("%p", "0"), "%t1");
    assert_eq!(
        f.body(),
        "  %t0 = insertvalue { ptr, i64 } undef, ptr %p, 0\n  %t1 = insertvalue { ptr, i64 } %t0, i64 0, 1\n"
    );
    let mut g = Fb::new(CTy::Void);
    let d = g.fat_checked("%fp");
    assert_eq!(d, "%t0");
    let want = [
        "  %t0 = extractvalue { ptr, i64 } %fp, 0\n",
        "  %t1 = extractvalue { ptr, i64 } %fp, 1\n",
        "  %t2 = icmp eq i64 %t1, 0\n",
        "  br i1 %t2, label %L2, label %L0\n",
        "L2:\n",
        "  %t3 = icmp eq ptr %t0, null\n",
        "  br i1 %t3, label %L3, label %L1\n",
        "L3:\n",
        "  call void @cool_null_fault()\n",
        "  br label %L1\n",
        "L0:\n",
        "  %t4 = getelementptr i8, ptr %t0, i64 -8\n",
        "  %t5 = load atomic i64, ptr %t4 seq_cst, align 8\n",
        "  %t6 = icmp ne i64 %t5, %t1\n",
        "  br i1 %t6, label %L4, label %L1\n",
        "L4:\n",
        "  call void @cool_gen_fault()\n",
        "  br label %L1\n",
        "L1:\n",
    ]
    .join("");
    assert_eq!(g.body(), &want);
    assert!(!g.is_terminated());
}

#[test]
fn bounds_checks_trap_through_the_runtime() {
    let mut f = Fb::new(CTy::Void);
    f.bounds_check("%i", "%n");
    assert_eq!(
        f.body(),
        "  %t0 = icmp uge i64 %i, %n\n  br i1 %t0, label %L0, label %L1\nL0:\n  call void @cool_bounds_fault()\n  br label %L1\nL1:\n"
    );
}

#[test]
fn default_return_is_the_zero_of_the_return_type() {
    let cases = vec![
        (CTy::Void, "  ret void\n"),
        (CTy::Int(32), "  ret i32 0\n"),
        (CTy::Bool, "  ret i1 0\n"),
        (CTy::RawPtr(Box::new(CTy::Char)), "  ret ptr null\n"),
        (CTy::Struct("Pt".to_string()), "  ret %Pt zeroinitializer\n"),
    ];
    for (ty, want) in cases {
        let mut f = Fb::new(ty);
        f.default_ret();
        assert_eq!(f.body(), want);
        assert!(f.is_terminated());
    }
    let mut f = Fb::new(CTy::F64);
    f.default_ret();
    assert_eq!(f.body(), &format!("  ret double 0{}0\n", '.'));
}

fn lit(v: i64) -> dusk::parser::ast::Expr {
    dusk::parser::ast::Expr {
        kind: dusk::parser::ast::ExprKind::Int(v, None),
        span: dusk::diag::Span::new(0, 0),
    }
}

#[test]
fn opcodes_follow_the_operand_kind() {
    assert_eq!(arith_opcode(BinOp::Div, false), "sdiv");
    assert_eq!(arith_opcode(BinOp::Mod, true), "frem");
    assert_eq!(arith_opcode(BinOp::And, false), "add");
    assert_eq!(cmp_opcode(BinOp::Lt, false), ("icmp", "slt"));
    assert_eq!(cmp_opcode(BinOp::Ne, true), ("fcmp", "one"));
}

#[test]
fn literal_shift_amounts_in_range_skip_the_guard() {
    let mut f = Fb::new(CTy::Void);
    let v = f.gen_shift("shl", "%a", &lit(3), "3", CTy::Int(8));
    assert_eq!(v.op, "%t0");
    assert_eq!(f.body(), "  %t0 = shl i8 %a, 3\n");
    let mut g = Fb::new(CTy::Void);
    let v = g.gen_shift("ashr", "%a", &lit(8), "8", CTy::Int(8));
    assert_eq!(v.op, "%t1");
    assert_eq!(
        g.body(),
        "  %t0 = icmp uge i8 8, 8\n  br i1 %t0, label %L0, label %L1\nL0:\n  call void @cool_shift_fault()\n  br label %L1\nL1:\n  %t1 = ashr i8 %a, 8\n"
    );
    assert!(dusk::codegen::builder::shift_amount_safe(&lit(63), &CTy::Unknown));
    assert!(!dusk::codegen::builder::shift_amount_safe(&lit(-1), &CTy::Int(32)));
}

#[test]
fn slice_parts_and_element_sizes() {
    let mut f = Fb::new(CTy::Void);
    let sv = dusk::codegen::builder::Val { ty: CTy::Slice(Box::new(CTy::Int(16))), op: "%s".to_string() };
    let (d, n, el) = f.slice_parts(&sv);
    assert_eq!((d.as_str(), n.as_str()), ("%t0", "%t1"));
    assert_eq!(format!("{:?}", el), "Int(16)");
    assert_eq!(f.body(), "  %t0 = extractvalue { ptr, i64 } %s, 0\n  %t1 = extractvalue { ptr, i64 } %s, 1\n");
    let sz = f.elem_size(&CTy::Int(32));
    assert_eq!(sz, "%t3");
    assert!(f.body().ends_with("  %t2 = getelementptr i32, ptr null, i64 1\n  %t3 = ptrtoint ptr %t2 to i64\n"));
}

#[test]
fn interface_slots_are_loaded_from_the_vtable() {

    let ctx = Ctx {
        structs: vec![],
        enums: vec![],
        ifaces: vec![IfaceDef {
            name: "Alloc".to_string(),
            methods: vec![
                IMethod { name: "alloc".to_string(), ret: CTy::RawPtr(Box::new(CTy::Char)), params: vec![] },
                IMethod { name: "free".to_string(), ret: CTy::Void, params: vec![] },
            ],
        }],
        impls: vec![],
        fns: Table::new(),
        methods: Table::new(),
        noms: Table::new(),
        async_fns: Table::new(),
    };
    let mut f = Fb::new(CTy::Void);
    let r = f.iface_slot(&ctx, "%iv", &"Alloc".to_string(), &"free".to_string()).unwrap();
    assert_eq!(r, ("%t0".to_string(), "%t3".to_string()));
    assert_eq!(
        f.body(),
        "  %t0 = extractvalue { ptr, ptr } %iv, 0\n  %t1 = extractvalue { ptr, ptr } %iv, 1\n  %t2 = getelementptr [2 x ptr], ptr %t1, i64 0, i64 1\n  %t3 = load ptr, ptr %t2\n"
    );
    assert!(f.iface_slot(&ctx, "%iv", &"Alloc".to_string(), &"grow".to_string()).is_none());
    assert!(f.iface_slot(&ctx, "%iv", &"Other".to_string(), &"free".to_string()).is_none());
}

#[test]
fn slots_are_hoisted_to_the_entry_block() {
    let mut f = Fb::new(CTy::Void);
    f.place_label("entry");
    let a = f.alloca(&CTy::Int(64));
    f.line("store i64 1, ptr %t0");
    let b = f.alloca(&CTy::Bool);
    assert_eq!((a.as_str(), b.as_str()), ("%t0", "%t1"));
    assert_eq!(f.body_out(), "entry:\n  %t0 = alloca i64\n  %t1 = alloca i1\n  store i64 1, ptr %t0\n");
}
