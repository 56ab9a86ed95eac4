use dusk::diag::{Diagnostic, Span};
use dusk::loader::{add_namespace, first_present, render_diag, resolve, resolve_candidates, FileSrc};

#[test]
fn unknown_import_does_not_resolve() {
    // the stdlib root beside the crate; tests run from the crate root
    assert!(resolve("std.nope.gone", "/nonexistent", "lib", "/nonexistent/cache").is_none());
}

#[test]
fn render_diag_attributes_to_the_imported_file() {
    let files = vec![
        FileSrc { path: "root.dusk".to_string(), base: 0, src: "func main() {}\n".to_string() },
        FileSrc { path: "lib.dusk".to_string(), base: 100, src: "func a() {}\nfunc b() {}\n".to_string() },
    ];
    let d = Diagnostic::new("boom", Span::new(112, 113));
    let out = render_diag(&files, &d);
    assert!(out.starts_with("lib.dusk: 2:1:"), "{out}");
    assert!(out.contains("boom"), "{out}");
}

#[test]
fn render_diag_attributes_to_the_root_file() {
    let files = vec![FileSrc { path: "root.dusk".to_string(), base: 0, src: "ab\ncd\n".to_string() }];
    let d = Diagnostic::new("x", Span::new(3, 4));
    let out = render_diag(&files, &d);
    assert!(out.starts_with("root.dusk: 2:1:"), "{out}");
}

#[test]
fn add_namespace_inserts_all_prefixes() {
    let mut ns: Vec<String> = Vec::new();
    add_namespace(&mut ns, "std.memory.arena");
    assert!(ns.iter().any(|s| s == "std"));
    assert!(ns.iter().any(|s| s == "std.memory"));
    assert!(ns.iter().any(|s| s == "std.memory.arena"));
    assert!(!ns.iter().any(|s| s == "std.memory.arena.alloc"));
}

#[test]
fn add_namespace_keeps_entries_unique() {
    let mut ns: Vec<String> = Vec::new();
    add_namespace(&mut ns, "std.io");
    add_namespace(&mut ns, "std.memory");
    add_namespace(&mut ns, "std.io");
    let mut sorted = ns.clone();
    sorted.sort();
    assert_eq!(sorted, vec!["std", "std.io", "std.memory"]);
}

#[test]
fn candidates_try_the_module_file_then_the_parent_with_a_leaf() {
    let roots = vec!["/a".to_string(), "/b".to_string()];
    let c = resolve_candidates("std/io/print_int", &roots);
    assert_eq!(c[0], ("/a/std/io/print_int.dusk".to_string(), None));
    assert!(c.contains(&("/a/std/io.dusk".to_string(), Some("print_int".to_string()))));
    assert!(c.contains(&("/b/std/io/print_int.dusk".to_string(), None)));
}

use dusk::loader::{exported_names, flatten_path, fold_item, register, shift_module};
use dusk::parser::ast::{Block, Expr, ExprKind, Func, Item, Module, Param, Stmt, Struct, Type};

fn ex(kind: ExprKind, lo: u32) -> Expr {
    Expr { kind, span: Span { lo, hi: lo + 1 } }
}

fn ident(n: &str, lo: u32) -> Expr {
    ex(ExprKind::Ident(n.to_string()), lo)
}

fn field(b: Expr, n: &str, lo: u32) -> Expr {
    ex(ExprKind::Field(Box::new(b), n.to_string()), lo)
}

fn call(f: Expr, args: Vec<Expr>, lo: u32) -> Expr {
    ex(ExprKind::Call(Box::new(f), args), lo)
}

fn func(name: &str, exported: bool, stmts: Vec<Stmt>) -> Func {
    Func {
        is_async: false, span: Span { lo: 0, hi: 0 },
        exported,
        name: name.to_string(),
        generics: vec![],
        params: vec![],
        ret: Type::Unit,
        body: Block { stmts },
    }
}

fn module(items: Vec<Item>) -> Module {
    Module { paradigms: vec![], imports: vec![], monads: vec![], items }
}

fn first_call_callee(f: &Func, idx: usize) -> &ExprKind {
    let Stmt::Expr(e) = &f.body.stmts[idx] else { panic!("stmt {idx} is not an expression") };
    let ExprKind::Call(callee, _) = &e.kind else { panic!("stmt {idx} is not a call") };
    &callee.kind
}

#[test]
fn fold_rewrites_qualified_call_and_keeps_method_call() {
    // func f(v: *int64) -> void { std.io.print_line("hi"); v.exists() }
    let mut f = func(
        "f",
        false,
        vec![
            Stmt::Expr(call(
                field(field(ident("std", 0), "io", 3), "print_line", 6),
                vec![ex(ExprKind::Str("hi".to_string()), 17)],
                6,
            )),
            Stmt::Expr(call(field(ident("v", 25), "exists", 27), vec![], 27)),
        ],
    );
    f.params = vec![Param {
        using: false,
        name: "v".to_string(),
        ty: Type::Ptr(Box::new(Type::Named("int64".to_string(), vec![]))),
    }];
    let mut m = module(vec![Item::Func(f)]);
    let mut ns: Vec<String> = Vec::new();
    add_namespace(&mut ns, "std.io");
    for it in &mut m.items {
        fold_item(it, &ns);
    }
    let Item::Func(f) = &m.items[0] else { panic!() };
    assert!(matches!(first_call_callee(f, 0), ExprKind::Ident(n) if n == "print_line"));
    assert!(matches!(first_call_callee(f, 1), ExprKind::Field(..)));
}

#[test]
fn fold_leaves_enum_variant_constructors_alone() {
    // func f() -> void { Maybe.Some(1) }
    let f = func(
        "f",
        false,
        vec![Stmt::Expr(call(field(ident("Maybe", 0), "Some", 6), vec![ex(ExprKind::Int(1, None), 11)], 6))],
    );
    let mut m = module(vec![Item::Func(f)]);
    let mut ns: Vec<String> = Vec::new();
    add_namespace(&mut ns, "std.functional.maybe");
    for it in &mut m.items {
        fold_item(it, &ns);
    }
    let Item::Func(f) = &m.items[0] else { panic!() };
    assert!(matches!(first_call_callee(f, 0), ExprKind::Field(..)));
}

#[test]
fn exported_names_collects_only_exported_items() {
    // export func a() -> void {}; func b() -> void {}; export struct C {}
    let m = module(vec![
        Item::Func(func("a", true, vec![])),
        Item::Func(func("b", false, vec![])),
        Item::Struct(Struct { exported: true, name: "C".to_string(), generics: vec![], fields: vec![] }),
    ]);
    let names = exported_names(&m);
    assert!(names.iter().any(|n| n == "a"));
    assert!(names.iter().any(|n| n == "C"));
    assert!(!names.iter().any(|n| n == "b"));
}

#[test]
fn flatten_path_spells_dotted_chains_only() {
    assert_eq!(flatten_path(&field(field(ident("std", 0), "io", 1), "println", 2)), Some("std.io.println".to_string()));
    assert_eq!(flatten_path(&field(call(ident("f", 0), vec![], 0), "x", 1)), None);
}

#[test]
fn register_shifts_spans_and_advances_the_base() {
    let mut files: Vec<FileSrc> = Vec::new();
    let mut base: u32 = 0;
    let mut a = module(vec![Item::Func(func("f", false, vec![Stmt::Expr(ident("x", 2))]))]);
    register(&mut files, &mut base, "a.dusk", "func f() { x }".to_string(), &mut a);
    assert_eq!(base, 15);
    let mut b = module(vec![Item::Func(func("g", false, vec![Stmt::Expr(ident("y", 4))]))]);
    register(&mut files, &mut base, "b.dusk", "é".to_string(), &mut b);
    assert_eq!(files.len(), 2);
    assert_eq!(files[1].base, 15);
    assert_eq!(base, 18);
    let Item::Func(g) = &b.items[0] else { panic!() };
    let Stmt::Expr(e) = &g.body.stmts[0] else { panic!() };
    assert_eq!(e.span, Span { lo: 19, hi: 20 });
    let mut c = module(vec![Item::Func(func("h", false, vec![Stmt::Expr(ident("z", 4))]))]);
    shift_module(&mut c, 0);
    let Item::Func(h) = &c.items[0] else { panic!() };
    let Stmt::Expr(e) = &h.body.stmts[0] else { panic!() };
    assert_eq!(e.span, Span { lo: 4, hi: 5 });
}

#[test]
fn repo_root_keeps_three_segments() {
    assert_eq!(dusk::loader::repo_root("github.com/user/repo/mod/sub"), "github.com/user/repo");
    assert_eq!(dusk::loader::repo_root("github.com/user/repo"), "github.com/user/repo");
    assert_eq!(dusk::loader::repo_root("host/user"), "host/user");
    assert_eq!(dusk::loader::repo_root("a//b/c"), "a//b");
    assert_eq!(dusk::loader::repo_root(""), "");
}

#[test]
fn first_present_picks_the_first_existing_candidate() {

    let cands = vec![
        ("a.dusk".to_string(), None),
        ("b.dusk".to_string(), Some("x".to_string())),
        ("c.dusk".to_string(), None),
    ];
    assert_eq!(first_present(&cands, &[false, true]), Some(("b.dusk".to_string(), Some("x".to_string()))));
    assert_eq!(first_present(&cands, &[true]), Some(("a.dusk".to_string(), None)));
    assert_eq!(first_present(&cands, &[false, false, false]), None);
    assert_eq!(first_present(&cands, &[]), None);
}

#[test]
fn slashed_imports_are_packages() {
    assert!(dusk::loader::is_package_import("github.com/user/repo/mod"));
    assert!(!dusk::loader::is_package_import("std.io.print"));
    assert!(!dusk::loader::is_package_import(""));
}


// The stdlib lookups below give `first_present` the answers a stdlib root at
// `lib` (beside the crate) holding `std/io.dusk` and `std/memory/arena.dusk`
// gives for each candidate, in the order they are asked.

#[test]
fn resolves_module_file_in_stdlib() {
    let roots = vec!["/nonexistent".to_string(), "lib".to_string()];
    let c = resolve_candidates("std/io", &roots);
    let present: Vec<bool> = c.iter().map(|(p, _)| p == "lib/std/io.dusk").collect();
    let (f, leaf) = first_present(&c, &present).expect("std.io should resolve");
    assert!(f.ends_with("std/io.dusk"), "{}", f);
    assert!(leaf.is_none(), "a module import has no leaf");
}

#[test]
fn resolves_nested_module_file() {
    let roots = vec!["/nonexistent".to_string(), "lib".to_string()];
    let c = resolve_candidates("std/memory/arena", &roots);
    let present: Vec<bool> = c.iter().map(|(p, _)| p == "lib/std/memory/arena.dusk").collect();
    let (f, leaf) = first_present(&c, &present).expect("arena should resolve");
    assert!(f.ends_with("std/memory/arena.dusk"), "{}", f);
    assert!(leaf.is_none());
}

#[test]
fn resolves_leaf_symbol_to_parent_file() {
    // std.io.print_int has no file; it resolves to the std/io.dusk parent with
    // print_int as the leaf symbol.
    let roots = vec!["/nonexistent".to_string(), "lib".to_string()];
    let c = resolve_candidates("std/io/print_int", &roots);
    let present: Vec<bool> = c.iter().map(|(p, _)| p == "lib/std/io.dusk").collect();
    let (f, leaf) = first_present(&c, &present).expect("leaf should resolve");
    assert!(f.ends_with("std/io.dusk"), "{}", f);
    assert_eq!(leaf.as_deref(), Some("print_int"));
}
