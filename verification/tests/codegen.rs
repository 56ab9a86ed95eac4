use dusk::codegen::demo_module;
use dusk::codegen::frame::{align_up, frame_prefix, FrameCtx, Slot};
use dusk::codegen::llvm::{encode_cstring, Func, Module};

fn slot(name: &str) -> Slot {
    Slot { name: name.to_string(), llty: "i64".to_string(), size: 8, align: 8, off: 0 }
}

fn ctx(params: Vec<(String, u64)>, first_free: u64) -> FrameCtx {
    FrameCtx {
        slots: vec![slot("%s0")],
        pend_d: "%pd".to_string(),
        pend_g: "%pg".to_string(),
        res: "%r".to_string(),
        params,
        result_off: 24,
        ret_size: 8,
        first_free,
        await_count: 0,
        resume_cases: vec![],
    }
}

#[test]
fn prefix_places_result_at_24_and_pads_to_8() {
    let p = frame_prefix((0, 1), &[(8, 8)]);
    assert_eq!(p.result_off, 24);
    assert_eq!(p.param_offs, vec![32]);
    assert_eq!(p.first_free, 40);
}

#[test]
fn prefix_rounds_small_return_region_to_8() {
    let p = frame_prefix((4, 4), &[(8, 8), (8, 8)]);
    assert_eq!(p.param_offs, vec![32, 40]);
    assert_eq!(p.first_free, 48);
}

#[test]
fn prefix_aligns_each_param() {
    let p = frame_prefix((8, 8), &[(1, 1), (8, 8)]);
    assert_eq!(p.param_offs, vec![32, 40]);
    assert_eq!(p.first_free, 48);
}

#[test]
fn finalize_rounds_frame_to_16() {
    let mut fc = ctx(vec![], 32);
    let size = fc.finalize();
    assert_eq!(fc.slots[0].off, 32);
    assert_eq!(size, 48);
}

#[test]
fn entry_text_geps_every_slot_and_switches_on_state() {
    let mut fc = ctx(vec![("%p0".to_string(), 40)], 48);
    let size = fc.finalize();
    assert_eq!(fc.slots[0].off, 48);
    assert_eq!(size, 64);
    let t = fc.entry_text("%st", &[(0, "start".to_string())]);
    assert!(t.contains("%r = getelementptr i8, ptr %frame, i64 24"));
    assert!(t.contains("%p0 = getelementptr i8, ptr %frame, i64 40"));
    assert!(t.contains("%s0 = getelementptr i8, ptr %frame, i64 48"));
    assert!(t.contains("%st = load i64, ptr %frame"));
    assert!(t.contains("switch i64 %st, label %badstate [ i64 0, label %start ]"));
    assert!(t.contains("badstate:\n  call void @cool_task_state_fault()\n  unreachable"));
}

#[test]
fn cstring_length_counts_nul() {
    let (enc, len) = encode_cstring("hi");
    assert_eq!(enc, "hi\\00");
    assert_eq!(len, 3);
}

#[test]
fn cstring_escapes_quotes_and_backslash() {
    let (enc, _) = encode_cstring("a\"b\\c");
    assert_eq!(enc, "a\\22b\\5Cc\\00");
}

#[test]
fn tmp_counter_increments() {
    let mut f = Func::new("void", "f", "");
    assert_eq!(f.next_tmp(), "%0");
    assert_eq!(f.next_tmp(), "%1");
}

#[test]
fn demo_ir_is_well_formed() {
    let ir = demo_module().render();
    assert!(ir.contains("define i32 @main()"));
    assert!(ir.contains("ret i32 0"));
    assert!(ir.contains("[26 x i8]"));
}

// Further cases of the same contracts.

#[test]
fn align_up_rounds_to_the_next_multiple() {
    assert_eq!(align_up(0, 8), 0);
    assert_eq!(align_up(1, 8), 8);
    assert_eq!(align_up(8, 8), 8);
    assert_eq!(align_up(9, 16), 16);
    assert_eq!(align_up(17, 1), 17);
}

#[test]
fn prefix_params_never_overlap_and_stay_aligned() {
    let params = [(1u64, 1u64), (4, 4), (2, 2), (8, 8), (3, 1)];
    let p = frame_prefix((16, 8), &params);
    assert_eq!(p.param_offs, vec![40, 44, 48, 56, 64]);
    assert_eq!(p.first_free, 67);
    for (i, (size, align)) in params.iter().enumerate() {
        assert_eq!(p.param_offs[i] % align, 0);
        if i + 1 < params.len() {
            assert!(p.param_offs[i] + size <= p.param_offs[i + 1]);
        }
    }
}

#[test]
fn cstring_escapes_control_and_non_ascii_bytes() {
    let (enc, len) = encode_cstring("a\nb\u{e9}");
    assert_eq!(enc, "a\\0Ab\\C3\\A9\\00");
    assert_eq!(len, 6);
}

#[test]
fn interned_cstring_is_shared() {
    let mut m = Module::new("m", "x86_64-unknown-linux-gnu");
    let a = m.cstring("hello");
    let b = m.cstring("world");
    let c = m.cstring("hello");
    assert_eq!(a, c);
    assert_ne!(a, b);
    let ir = m.render();
    assert_eq!(ir.matches("c\"hello\\00\"").count(), 1);
    assert!(ir.contains("[6 x i8]"));
}

#[test]
fn func_text_has_header_body_and_close() {
    let mut f = Func::new("i32", "main", "");
    f.call_void("@puts(ptr @.str.0)");
    f.ret("i32", "0");
    let t = f.finish();
    assert!(t.starts_with("define i32 @main() {\nentry:\n"));
    assert!(t.contains("  call void @puts(ptr @.str.0)\n"));
    assert!(t.contains("  ret i32 0\n"));
    assert!(t.ends_with("  ret i32 0\n}"));
}

#[test]
fn module_sections_render_types_externs_globals_and_functions() {
    let mut m = Module::new("m", "x86_64-unknown-linux-gnu");
    m.define_type("Point", "{ double, double }");
    m.declare("i32 @puts(ptr)");
    m.declare("i32 @puts(ptr)");
    m.global("@g = global i64 0".to_string());
    m.push_function("define void @f() {\nentry:\n  ret void\n}".to_string());
    let ir = m.render();
    assert!(ir.contains("%Point = type { double, double }"));
    assert_eq!(ir.matches("declare i32 @puts(ptr)").count(), 1);
    assert!(ir.contains("@g = global i64 0"));
    assert!(ir.contains("define void @f() {"));
    assert!(ir.contains("target triple = \"x86_64-unknown-linux-gnu\""));
}

#[test]
fn fresh_lambda_counts_up() {
    let mut m = Module::new("m", "t");
    assert_eq!(m.fresh_lambda(), 0);
    assert_eq!(m.fresh_lambda(), 1);
    assert_eq!(m.fresh_lambda(), 2);
}

#[test]
fn interned_label_survives_later_calls() {
    let mut m = Module::new("m", "t");
    let a = m.cstring("first");
    let b = m.cstring("second");
    m.define_type("T", "{ i64 }");
    m.declare("void @f()");
    m.global("@g = global i64 0".to_string());
    m.fresh_lambda();
    let c = m.cstring("third");
    let a2 = m.cstring("first");
    assert_eq!(a, "@.str.0");
    assert_eq!(b, "@.str.1");
    assert_eq!(c, "@.str.2");
    assert_eq!(a2, a);
    let ir = m.render();
    assert_eq!(ir.matches("c\"first\\00\"").count(), 1);
}
