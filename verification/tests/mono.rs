use dusk::mono::{
    bind, builtin_ret, clone_type, contains_name, flat, int_lit_ty, mangle, mentions, named, solve,
    subst_apply, union, unify, Subst,
};
use dusk::parser::ast::Type;

fn generic(n: &str, args: Vec<Type>) -> Type {
    Type::Named(n.to_string(), args)
}

fn names(v: &[&str]) -> Vec<String> {
    v.iter().map(|s| s.to_string()).collect()
}

#[test]
fn flat_spells_each_constructor() {
    assert_eq!(flat(&named("int64")), "int64");
    assert_eq!(flat(&Type::Ptr(Box::new(named("int8")))), "$p$int8");
    assert_eq!(flat(&Type::RawPtr(Box::new(named("int8")))), "$rp$int8");
    assert_eq!(flat(&Type::Slice(Box::new(named("bool")))), "$s$bool");
    assert_eq!(flat(&Type::Array(Box::new(named("bool")), 12)), "$a12$bool");
    assert_eq!(flat(&Type::Tuple(vec![named("a"), named("b")])), "$t2$a$b");
    assert_eq!(flat(&Type::Tuple(vec![])), "$t0$");
    assert_eq!(flat(&Type::Func(vec![named("x")], Box::new(Type::Unit))), "$f1$x$$void");
    assert_eq!(flat(&Type::Unit), "$void");
    assert_eq!(flat(&generic("Box", vec![named("int32")])), "Box$1$int32");
}

#[test]
fn nesting_and_siblings_never_alias() {
    // A<B<C>, D> and A<B, C<D>>
    let one = mangle("A", &vec![generic("B", vec![named("C")]), named("D")]);
    let two = mangle("A", &vec![named("B"), generic("C", vec![named("D")])]);
    assert_eq!(one, "A$B$1$C$D");
    assert_eq!(two, "A$B$C$1$D");
    assert_ne!(one, two);
}

#[test]
fn mangle_without_arguments_is_the_name() {
    assert_eq!(mangle("id", &vec![]), "id");
    assert_eq!(mangle("id", &vec![named("int64")]), "id$int64");
    assert_eq!(mangle("Pair", &vec![named("int64"), named("int64")]), "Pair$int64$int64");
    assert_eq!(mangle("cast", &vec![named("int64"), named("float64")]), "cast$int64$float64");
}

#[test]
fn bind_then_apply_substitutes_parameters() {
    let s = bind(&names(&["T", "U"]), &[named("int64"), named("bool")]);
    let t = Type::Tuple(vec![named("T"), Type::Ptr(Box::new(named("U"))), named("V")]);
    assert_eq!(flat(&subst_apply(&t, &s)), "$t3$int64$$p$bool$V");
}

#[test]
fn bind_stops_at_the_shorter_list() {
    let s = bind(&names(&["T", "U"]), &[named("int8")]);
    assert_eq!(flat(&subst_apply(&named("U"), &s)), "U");
    assert_eq!(flat(&subst_apply(&named("T"), &s)), "int8");
}

#[test]
fn empty_substitution_is_identity() {
    let t = generic("Map", vec![named("K"), Type::Slice(Box::new(named("V")))]);
    assert_eq!(flat(&subst_apply(&t, &Subst::new())), flat(&t));
}

#[test]
fn union_prefers_the_override() {
    let a = bind(&names(&["T", "U"]), &[named("int8"), named("int16")]);
    let b = bind(&names(&["U"]), &[named("uint8")]);
    let u = union(&a, &b);
    assert_eq!(flat(&subst_apply(&named("T"), &u)), "int8");
    assert_eq!(flat(&subst_apply(&named("U"), &u)), "uint8");
}

#[test]
fn unify_infers_parameters_from_a_concrete_type() {
    let mut out = Subst::new();
    // Pair<T, []U> against Pair<int64, [3]bool>: a slice pattern takes an array.
    let pat = generic("Pair", vec![named("T"), Type::Slice(Box::new(named("U")))]);
    let conc = generic("Pair", vec![named("int64"), Type::Array(Box::new(named("bool")), 3)]);
    unify(&pat, &conc, &names(&["T", "U"]), &mut out);
    let (tys, missing) = solve(&names(&["T", "U"]), &out);
    assert!(missing.is_empty());
    assert_eq!(flat(&tys[0]), "int64");
    assert_eq!(flat(&tys[1]), "bool");
}

#[test]
fn solve_reports_unsolved_parameters() {
    let out = bind(&names(&["T"]), &[named("int64")]);
    let (tys, missing) = solve(&names(&["T", "U"]), &out);
    // an unsolved parameter gets int64 in its place and is reported
    assert_eq!(tys.len(), 2);
    assert_eq!(flat(&tys[1]), "int64");
    assert_eq!(missing, vec!["U".to_string()]);
}

#[test]
fn unify_keeps_the_first_binding() {
    let mut out = Subst::new();
    let pat = generic("P", vec![named("T"), named("T")]);
    let conc = generic("P", vec![named("int8"), named("bool")]);
    unify(&pat, &conc, &names(&["T"]), &mut out);
    assert_eq!(flat(&subst_apply(&named("T"), &out)), "int8");
}

#[test]
fn mentions_and_contains_name() {
    let ps = names(&["T"]);
    assert!(mentions(&Type::Ptr(Box::new(named("T"))), &ps));
    assert!(!mentions(&Type::Ptr(Box::new(named("X"))), &ps));
    assert!(contains_name(&ps, &"T".to_string()));
    assert!(!contains_name(&ps, &"U".to_string()));
}

#[test]
fn clone_keeps_the_spelling() {
    let t = Type::Func(vec![generic("Box", vec![named("a")])], Box::new(Type::Array(Box::new(Type::Unit), 3)));
    assert_eq!(flat(&clone_type(&t)), flat(&t));
}

#[test]
fn literal_suffix_picks_the_integer_type() {
    assert_eq!(int_lit_ty(&Some("u8".to_string())), "uint8");
    assert_eq!(int_lit_ty(&Some("i32".to_string())), "int32");
    assert_eq!(int_lit_ty(&Some("zz".to_string())), "int64");
    assert_eq!(int_lit_ty(&None), "int64");
}

#[test]
fn builtin_results() {
    assert_eq!(flat(&builtin_ret("sizeof").unwrap()), "int64");
    assert_eq!(flat(&builtin_ret("write_file").unwrap()), "error");
    assert!(builtin_ret("nope").is_none());
}

#[test]
fn substitution_leaves_unmentioned_types_alone() {
    let s = bind(&names(&["T"]), &[named("int64")]);
    let t = Type::Func(vec![named("U"), Type::Slice(Box::new(named("bool")))], Box::new(named("V")));
    assert_eq!(flat(&subst_apply(&t, &s)), flat(&t));
}
