//! The static typer of the monomorphizer: the type an expression has before
//! expansion, as far as it can be read off the expression, the local
//! environment and the declarations, with call-site inference of a generic
//! function's, struct's or enum's type arguments.

use vstd::prelude::*;
use crate::lexer::token::opt_view;
use crate::mono::cross::{bind_tv, last_genum, last_gstruct, lemma_bind_tv, lemma_last_genum, lemma_last_gstruct, pairs};
use crate::mono::{
    bind, builtin_ret, builtin_ret_spec, int_lit_spec, int_lit_ty, mentions, mentions_spec, name_set,
    named, solve, solve_types, strs, subst_apply, subst_spec, union, unify, unify_spec, unsolved, Subst,
};
use crate::parser::ast::{tv, tvs, BinOp, Expr, ExprKind, Field, Func, Item, Param, Stmt, Struct, Type, TypeV, UnOp};
use crate::text::push_str;

verus! {

pub open spec fn named_v(n: Seq<char>) -> TypeV {
    TypeV::Named(n, seq![])
}

/// A generic function named `n`.
pub open spec fn is_gfunc_named(it: Item, n: Seq<char>) -> bool {
    it matches Item::Func(f) && f.name@ == n && f.generics@.len() > 0
}

/// A non-generic function named `n`.
pub open spec fn is_func_named(it: Item, n: Seq<char>) -> bool {
    it matches Item::Func(f) && f.name@ == n && f.generics@.len() == 0
}

/// The last generic function named `n` among the first `i` items.
pub open spec fn last_gfunc(items: Seq<Item>, n: Seq<char>, i: int) -> Option<int>
    decreases i,
{
    if i <= 0 {
        None
    } else if is_gfunc_named(items[i - 1], n) {
        Some(i - 1)
    } else {
        last_gfunc(items, n, i - 1)
    }
}

/// The last non-generic function named `n` among the first `i` items.
pub open spec fn last_func(items: Seq<Item>, n: Seq<char>, i: int) -> Option<int>
    decreases i,
{
    if i <= 0 {
        None
    } else if is_func_named(items[i - 1], n) {
        Some(i - 1)
    } else {
        last_func(items, n, i - 1)
    }
}

/// Whether the generic enum `g` has a variant named `v`.
pub open spec fn has_variant(items: Seq<Item>, g: Seq<char>, v: Seq<char>) -> bool {
    match last_genum(items, g, items.len() as int) {
        Some(k) => exists|j: int|
            0 <= j < items[k]->Enum_0.variants@.len() && (#[trigger] items[k]->Enum_0.variants@[j]).name@ == v,
        None => false,
    }
}

/// The index of the first field of `fs` named `n`.
pub open spec fn first_field(fs: Seq<Field>, n: Seq<char>, i: int) -> Option<int>
    decreases fs.len() - i,
{
    if i < 0 || i >= fs.len() {
        None
    } else if fs[i].name@ == n {
        Some(i)
    } else {
        first_field(fs, n, i + 1)
    }
}

/// The index of the first variant of `vs` named `n`.
pub open spec fn first_variant(vs: Seq<crate::parser::ast::Variant>, n: Seq<char>, i: int) -> Option<int>
    decreases vs.len() - i,
{
    if i < 0 || i >= vs.len() {
        None
    } else if vs[i].name@ == n {
        Some(i)
    } else {
        first_variant(vs, n, i + 1)
    }
}

/// The operators whose result is a `bool`.
pub open spec fn bool_result(op: BinOp) -> bool {
    op == BinOp::Eq || op == BinOp::Ne || op == BinOp::Lt || op == BinOp::Le || op == BinOp::Gt
        || op == BinOp::Ge || op == BinOp::And || op == BinOp::Or
}

/// The set of names in a sequence.
pub open spec fn seq_names(v: Seq<Seq<char>>) -> Set<Seq<char>> {
    Set::new(|x: Seq<char>| v.contains(x))
}

/// The static type of `e` under the substitution `s` and the local
/// environment `env`, when it can be read off.
pub open spec fn static_ty(items: Seq<Item>, e: Expr, s: Map<Seq<char>, TypeV>, env: Map<Seq<char>, TypeV>) -> Option<TypeV>
    decreases e, 0int, 0int,
{
    let len = items.len() as int;
    match e.kind {
        ExprKind::Int(_, suf) => Some(named_v(int_lit_spec(opt_view(suf)))),
        ExprKind::Float(..) => Some(named_v("float64"@)),
        ExprKind::Bool(_) => Some(named_v("bool"@)),
        ExprKind::Char(_) => Some(named_v("char"@)),
        ExprKind::Str(_) => Some(named_v("string"@)),
        ExprKind::Ident(n) => if env.contains_key(n@) { Some(env[n@]) } else { None },
        ExprKind::Unary(op, x) => match op {
            UnOp::Not => Some(named_v("bool"@)),
            UnOp::Neg => static_ty(items, *x, s, env),
            UnOp::BitNot => static_ty(items, *x, s, env),
            UnOp::Deref => match static_ty(items, *x, s, env) {
                Some(TypeV::Ptr(b)) => Some(*b),
                _ => None,
            },
        },
        ExprKind::Binary(op, a, _) => if bool_result(op) {
            Some(named_v("bool"@))
        } else {
            static_ty(items, *a, s, env)
        },
        ExprKind::Index(a, _) => match static_ty(items, *a, s, env) {
            Some(TypeV::Slice(b)) => Some(*b),
            Some(TypeV::Array(b, _)) => Some(*b),
            _ => None,
        },
        ExprKind::Call(callee, args) => match callee.kind {
            ExprKind::Ident(f) => match last_gfunc(items, f@, len) {
                Some(k) => {
                    let gf = items[k]->Func_0;
                    let (targs, missing) = solve_call(items, gf, args@, s, env, None);
                    if mentions_spec(tv(gf.ret), seq_names(missing)) {
                        None
                    } else {
                        Some(subst_spec(tv(gf.ret), bind_tv(gf.generics@, targs, pairs(gf.generics@, targs))))
                    }
                },
                None => match last_func(items, f@, len) {
                    Some(k) => {
                        let f = items[k]->Func_0;
                        if f.is_async {
                            Some(TypeV::Named("Future"@, seq![tv(f.ret)]))
                        } else {
                            Some(tv(f.ret))
                        }
                    },
                    None => builtin_ret_spec(f@),
                },
            },
            ExprKind::Field(base, v) => match base.kind {
                ExprKind::Ident(g) => if has_variant(items, g@, v@) {
                    Some(TypeV::Named(g@, enum_args(items, g@, args@, s, env, v@)))
                } else {
                    None
                },
                _ => None,
            },
            _ => None,
        },
        ExprKind::Field(base, name) => {
            let via_enum = match base.kind {
                ExprKind::Ident(g) => has_variant(items, g@, name@),
                _ => false,
            };
            if via_enum {
                let g = base.kind->Ident_0@;
                let ge = items[last_genum(items, g, len)->0]->Enum_0;
                Some(TypeV::Named(g, solve_types(ge.generics@, Map::empty())))
            } else {
                match static_ty(items, *base, s, env) {
                    Some(TypeV::Named(sn, sargs)) => match last_gstruct(items, sn, len) {
                        Some(k) => {
                            let gs = items[k]->Struct_0;
                            match first_field(gs.fields@, name@, 0) {
                                Some(j) => Some(
                                    subst_spec(
                                        subst_spec(
                                            tv(gs.fields@[j].ty),
                                            bind_tv(gs.generics@, sargs, pairs(gs.generics@, sargs)),
                                        ),
                                        s,
                                    ),
                                ),
                                None => None,
                            }
                        },
                        None => None,
                    },
                    _ => None,
                }
            }
        },
        ExprKind::StructLit(name, fields) => match last_gstruct(items, name@, len) {
            Some(k) => Some(TypeV::Named(name@, infer_struct_args(items, items[k]->Struct_0, fields@, s, env))),
            None => Some(named_v(name@)),
        },
        _ => None,
    }
}

/// The type arguments a call of the generic function `gf` with `args`
/// infers, and the parameters it could not pin: non-lambda arguments first,
/// then the expected type against the declared return, then continuation
/// lambdas whose body is a single `return`.
pub open spec fn solve_call(
    items: Seq<Item>,
    gf: Func,
    args: Seq<Expr>,
    s: Map<Seq<char>, TypeV>,
    env: Map<Seq<char>, TypeV>,
    expected: Option<TypeV>,
) -> (Seq<TypeV>, Seq<Seq<char>>)
    decreases args, 3int, 0int,
{
    let params = name_set(gf.generics@);
    let n = gf.params@.len() as int;
    let inf1 = arg_pass(items, gf.params@, args, s, env, params, n);
    let inf2 = match expected {
        Some(et) => unify_spec(tv(gf.ret), et, params, inf1),
        None => inf1,
    };
    let inf3 = lambda_pass(items, gf.params@, args, s, env, params, inf2, n);
    (solve_types(gf.generics@, inf3), unsolved(gf.generics@, inf3, gf.generics@.len() as int))
}

/// Unifies each of the first `i` declared parameters with the static type of
/// its non-lambda argument, from an empty inference.
pub open spec fn arg_pass(
    items: Seq<Item>,
    ps: Seq<Param>,
    args: Seq<Expr>,
    s: Map<Seq<char>, TypeV>,
    env: Map<Seq<char>, TypeV>,
    params: Set<Seq<char>>,
    i: int,
) -> Map<Seq<char>, TypeV>
    decreases args, 2int, i,
{
    if i <= 0 || i > ps.len() {
        Map::empty()
    } else {
        let prev = arg_pass(items, ps, args, s, env, params, i - 1);
        if i - 1 < args.len() && !(args[i - 1].kind is Lambda) {
            match static_ty(items, args[i - 1], s, env) {
                Some(at) => unify_spec(tv(ps[i - 1].ty), at, params, prev),
                None => prev,
            }
        } else {
            prev
        }
    }
}

/// The environment a continuation lambda's body is typed in: `env` with the
/// first `j` lambda parameters bound to the declared parameter types under
/// `merged`.
pub open spec fn lambda_env(
    env: Map<Seq<char>, TypeV>,
    lps: Seq<Param>,
    pdecl: Seq<Type>,
    merged: Map<Seq<char>, TypeV>,
    j: int,
) -> Map<Seq<char>, TypeV>
    decreases j,
{
    if j <= 0 {
        env
    } else {
        let prev = lambda_env(env, lps, pdecl, merged, j - 1);
        if j - 1 < pdecl.len() {
            prev.insert(lps[j - 1].name@, subst_spec(tv(pdecl[j - 1]), merged))
        } else {
            prev
        }
    }
}

/// Lets each of the first `i` continuation lambda arguments whose body is a
/// single `return e` pin parameters from the static type of `e`.
pub open spec fn lambda_pass(
    items: Seq<Item>,
    ps: Seq<Param>,
    args: Seq<Expr>,
    s: Map<Seq<char>, TypeV>,
    env: Map<Seq<char>, TypeV>,
    params: Set<Seq<char>>,
    inf0: Map<Seq<char>, TypeV>,
    i: int,
) -> Map<Seq<char>, TypeV>
    decreases args, 2int, i,
{
    if i <= 0 || i > ps.len() {
        inf0
    } else {
        let prev = lambda_pass(items, ps, args, s, env, params, inf0, i - 1);
        if i - 1 < args.len() && args[i - 1].kind is Lambda && ps[i - 1].ty is Func {
            let l = args[i - 1].kind->Lambda_0;
            let pdecl = ps[i - 1].ty->Func_0;
            let rdecl = ps[i - 1].ty->Func_1;
            let merged = s.union_prefer_right(prev);
            let env2 = lambda_env(env, l.params@, pdecl@, merged, l.params@.len() as int);
            if l.body.stmts@.len() == 1 && l.body.stmts@[0] matches Stmt::Return(Some(r)) {
                let r = l.body.stmts@[0]->Return_0->0;
                proof {
                    assert(decreases_to!(args => args[i - 1]));
                    assert(decreases_to!(args[i - 1] => args[i - 1].kind));
                    assert(decreases_to!(args[i - 1].kind => l));
                    assert(decreases_to!(l => l.body));
                    assert(decreases_to!(l.body => l.body.stmts));
                    assert(decreases_to!(l.body.stmts => l.body.stmts@));
                    assert(decreases_to!(l.body.stmts@ => l.body.stmts@[0]));
                    assert(decreases_to!(l.body.stmts@[0] => l.body.stmts@[0]->Return_0));
                    assert(decreases_to!(l.body.stmts@[0]->Return_0 => r));
                }
                match static_ty(items, r, s, env2) {
                    Some(rt) => unify_spec(tv(*rdecl), rt, params, prev),
                    None => prev,
                }
            } else {
                prev
            }
        } else {
            prev
        }
    }
}

/// The type arguments of the generic enum `g` that a construction of its
/// variant `v` with `payload` infers.
pub open spec fn enum_args(
    items: Seq<Item>,
    g: Seq<char>,
    payload: Seq<Expr>,
    s: Map<Seq<char>, TypeV>,
    env: Map<Seq<char>, TypeV>,
    v: Seq<char>,
) -> Seq<TypeV>
    decreases payload, 3int, 0int,
{
    let ge = items[last_genum(items, g, items.len() as int)->0]->Enum_0;
    let params = name_set(ge.generics@);
    let inf = match first_variant(ge.variants@, v, 0) {
        Some(j) => payload_pass(items, ge.variants@[j].fields@, payload, s, env, params, ge.variants@[j].fields@.len() as int),
        None => Map::empty(),
    };
    solve_types(ge.generics@, inf)
}

/// Unifies each of the first `i` variant fields with the static type of the
/// payload in the same position, from an empty inference.
pub open spec fn payload_pass(
    items: Seq<Item>,
    fs: Seq<Field>,
    payload: Seq<Expr>,
    s: Map<Seq<char>, TypeV>,
    env: Map<Seq<char>, TypeV>,
    params: Set<Seq<char>>,
    i: int,
) -> Map<Seq<char>, TypeV>
    decreases payload, 2int, i,
{
    if i <= 0 || i > fs.len() {
        Map::empty()
    } else {
        let prev = payload_pass(items, fs, payload, s, env, params, i - 1);
        if i - 1 < payload.len() {
            match static_ty(items, payload[i - 1], s, env) {
                Some(at) => unify_spec(tv(fs[i - 1].ty), at, params, prev),
                None => prev,
            }
        } else {
            prev
        }
    }
}

/// The type arguments of the generic struct `gs` that a literal with
/// `fields` infers.
pub open spec fn infer_struct_args(
    items: Seq<Item>,
    gs: Struct,
    fields: Seq<(String, Expr)>,
    s: Map<Seq<char>, TypeV>,
    env: Map<Seq<char>, TypeV>,
) -> Seq<TypeV>
    decreases fields, 3int, 0int,
{
    solve_types(gs.generics@, field_pass(items, gs, fields, s, env, fields.len() as int))
}

/// Unifies the declared type of each of the first `i` literal fields that
/// the struct declares with the static type of its value.
pub open spec fn field_pass(
    items: Seq<Item>,
    gs: Struct,
    fields: Seq<(String, Expr)>,
    s: Map<Seq<char>, TypeV>,
    env: Map<Seq<char>, TypeV>,
    i: int,
) -> Map<Seq<char>, TypeV>
    decreases fields, 2int, i,
{
    if i <= 0 || i > fields.len() {
        Map::empty()
    } else {
        let prev = field_pass(items, gs, fields, s, env, i - 1);
        match first_field(gs.fields@, fields[i - 1].0@, 0) {
            Some(j) => match static_ty(items, fields[i - 1].1, s, env) {
                Some(vt) => unify_spec(tv(gs.fields@[j].ty), vt, name_set(gs.generics@), prev),
                None => prev,
            },
            None => prev,
        }
    }
}

proof fn lemma_seq_names(v: Seq<String>)
    ensures
        name_set(v) == seq_names(strs(v)),
{
    assert forall|x: Seq<char>| name_set(v).contains(x) <==> seq_names(strs(v)).contains(x) by {
        if name_set(v).contains(x) {
            let j = choose|j: int| 0 <= j < v.len() && (#[trigger] v[j])@ == x;
            assert(strs(v)[j] == x);
        }
        if seq_names(strs(v)).contains(x) {
            let j = choose|j: int| 0 <= j < strs(v).len() && strs(v)[j] == x;
            assert(v[j]@ == x);
        }
    }
    assert(name_set(v) =~= seq_names(strs(v)));
}

/// The index of the last generic function named `n`.
fn last_gfunc_index(items: &Vec<Item>, n: &String) -> (r: Option<usize>)
    ensures
        match r {
            Some(k) => last_gfunc(items@, n@, items@.len() as int) == Some(k as int),
            None => last_gfunc(items@, n@, items@.len() as int) is None,
        },
{
    let mut i = items.len();
    while i > 0
        invariant
            i <= items@.len(),
            last_gfunc(items@, n@, items@.len() as int) == last_gfunc(items@, n@, i as int),
        decreases i,
    {
        if let Item::Func(f) = &items[i - 1] {
            if f.name == *n && f.generics.len() > 0 {
                return Some(i - 1);
            }
        }
        i = i - 1;
    }
    None
}

/// The index of the last non-generic function named `n`.
fn last_func_index(items: &Vec<Item>, n: &String) -> (r: Option<usize>)
    ensures
        match r {
            Some(k) => last_func(items@, n@, items@.len() as int) == Some(k as int),
            None => last_func(items@, n@, items@.len() as int) is None,
        },
{
    let mut i = items.len();
    while i > 0
        invariant
            i <= items@.len(),
            last_func(items@, n@, items@.len() as int) == last_func(items@, n@, i as int),
        decreases i,
    {
        if let Item::Func(f) = &items[i - 1] {
            if f.name == *n && f.generics.len() == 0 {
                return Some(i - 1);
            }
        }
        i = i - 1;
    }
    None
}

proof fn lemma_last_gfunc(items: Seq<Item>, n: Seq<char>, i: int)
    requires
        i <= items.len(),
    ensures
        last_gfunc(items, n, i) matches Some(k) ==> 0 <= k < i && is_gfunc_named(items[k], n),
    decreases i,
{
    if i > 0 && !is_gfunc_named(items[i - 1], n) {
        lemma_last_gfunc(items, n, i - 1);
    }
}

proof fn lemma_last_func(items: Seq<Item>, n: Seq<char>, i: int)
    requires
        i <= items.len(),
    ensures
        last_func(items, n, i) matches Some(k) ==> 0 <= k < i && is_func_named(items[k], n),
    decreases i,
{
    if i > 0 && !is_func_named(items[i - 1], n) {
        lemma_last_func(items, n, i - 1);
    }
}

/// The index of the first field of `fs` named `n`.
fn first_field_index(fs: &Vec<Field>, n: &String) -> (r: Option<usize>)
    ensures
        match r {
            Some(j) => first_field(fs@, n@, 0) == Some(j as int) && j < fs@.len(),
            None => first_field(fs@, n@, 0) is None,
        },
{
    let mut i: usize = 0;
    while i < fs.len()
        invariant
            0 <= i <= fs@.len(),
            first_field(fs@, n@, 0) == first_field(fs@, n@, i as int),
        decreases fs.len() - i,
    {
        if fs[i].name == *n {
            return Some(i);
        }
        i = i + 1;
    }
    None
}

/// The index of the first variant of `vs` named `n`.
fn first_variant_index(vs: &Vec<crate::parser::ast::Variant>, n: &String) -> (r: Option<usize>)
    ensures
        match r {
            Some(j) => first_variant(vs@, n@, 0) == Some(j as int) && j < vs@.len(),
            None => first_variant(vs@, n@, 0) is None,
        },
{
    let mut i: usize = 0;
    while i < vs.len()
        invariant
            0 <= i <= vs@.len(),
            first_variant(vs@, n@, 0) == first_variant(vs@, n@, i as int),
        decreases vs.len() - i,
    {
        if vs[i].name == *n {
            return Some(i);
        }
        i = i + 1;
    }
    None
}

/// Whether the generic enum `g` has a variant named `v`.
pub fn enum_has_variant(items: &Vec<Item>, g: &String, v: &String) -> (r: bool)
    ensures
        r == has_variant(items@, g@, v@),
{
    proof {
        lemma_last_genum(items@, g@, items@.len() as int);
    }
    match crate::mono::cross::last_genum_index(items, g) {
        Some(k) => {
            if let Item::Enum(e) = &items[k] {
                let mut j: usize = 0;
                while j < e.variants.len()
                    invariant
                        0 <= j <= e.variants@.len(),
                        k < items@.len(),
                        items@[k as int] == Item::Enum(*e),
                        last_genum(items@, g@, items@.len() as int) == Some(k as int),
                        forall|i: int| 0 <= i < j ==> (#[trigger] e.variants@[i]).name@ != v@,
                    decreases e.variants.len() - j,
                {
                    if e.variants[j].name == *v {
                        assert(items@[k as int]->Enum_0.variants@[j as int].name@ == v@);
                        return true;
                    }
                    j = j + 1;
                }
                false
            } else {
                false
            }
        },
        None => false,
    }
}

/// The static type of `e` under the substitution `s` and the local
/// environment `env`, when it can be read off the expression: literals,
/// locals, operators, indexing, calls (with the type arguments of a generic
/// callee inferred at the site), enum variants, fields of generic structs and
/// struct literals.
pub fn static_type(items: &Vec<Item>, e: &Expr, s: &Subst, env: &Subst) -> (r: Option<Type>)
    requires
        s.wf(),
        env.wf(),
    ensures
        match r {
            Some(t) => static_ty(items@, *e, s@, env@) == Some(tv(t)),
            None => static_ty(items@, *e, s@, env@) is None,
        },
    decreases *e, 0int, 0int,
{
    let ghost len = items@.len() as int;
    match &e.kind {
        ExprKind::Int(_, suf) => Some(named(int_lit_ty(suf))),
        ExprKind::Float(..) => Some(named("float64")),
        ExprKind::Bool(_) => Some(named("bool")),
        ExprKind::Char(_) => Some(named("char")),
        ExprKind::Str(_) => Some(named("string")),
        ExprKind::Ident(n) => env.get(n),
        ExprKind::Unary(op, x) => match op {
            UnOp::Not => Some(named("bool")),
            UnOp::Neg => static_type(items, x, s, env),
            UnOp::BitNot => static_type(items, x, s, env),
            UnOp::Deref => match static_type(items, x, s, env) {
                Some(t) => match t {
                    Type::Ptr(b) => Some(*b),
                    _ => None,
                },
                None => None,
            },
        },
        ExprKind::Binary(op, a, _) => {
            let is_bool = match op {
                BinOp::Eq | BinOp::Ne | BinOp::Lt | BinOp::Le | BinOp::Gt | BinOp::Ge | BinOp::And | BinOp::Or => true,
                _ => false,
            };
            if is_bool {
                Some(named("bool"))
            } else {
                static_type(items, a, s, env)
            }
        },
        ExprKind::Index(a, _) => match static_type(items, a, s, env) {
            Some(t) => match t {
                Type::Slice(b) => Some(*b),
                Type::Array(b, _) => Some(*b),
                _ => None,
            },
            None => None,
        },
        ExprKind::Call(callee, args) => match &callee.kind {
            ExprKind::Ident(f) => {
                proof {
                    lemma_last_gfunc(items@, f@, len);
                    lemma_last_func(items@, f@, len);
                }
                match last_gfunc_index(items, f) {
                    Some(k) => {
                        if let Item::Func(gf) = &items[k] {
                            proof {
                                assert(decreases_to!(*e => e.kind));
                                assert(decreases_to!(e.kind => *args));
                            }
                            let (targs, missing) = solve_call_args(items, gf, args, s, env, None);
                            proof {
                                lemma_seq_names(missing@);
                            }
                            if mentions(&gf.ret, missing.as_slice()) {
                                None
                            } else {
                                let inf = bind(gf.generics.as_slice(), targs.as_slice());
                                proof {
                                    lemma_bind_tv(gf.generics@, targs@, pairs(gf.generics@, tvs(targs@)));
                                }
                                Some(subst_apply(&gf.ret, &inf))
                            }
                        } else {
                            None
                        }
                    },
                    None => match last_func_index(items, f) {
                        Some(k) => {
                            if let Item::Func(fd) = &items[k] {
                                let ret = crate::mono::clone_type(&fd.ret);
                                if fd.is_async {
                                    let mut v: Vec<Type> = Vec::new();
                                    v.push(ret);
                                    assert(tvs(v@) =~= seq![tv(fd.ret)]);
                                    Some(Type::Named(string_lit("Future"), v))
                                } else {
                                    Some(ret)
                                }
                            } else {
                                None
                            }
                        },
                        None => builtin_ret(f.as_str()),
                    },
                }
            },
            ExprKind::Field(base, v) => match &base.kind {
                ExprKind::Ident(g) => {
                    if enum_has_variant(items, g, v) {
                        proof {
                            assert(decreases_to!(*e => e.kind));
                            assert(decreases_to!(e.kind => *args));
                        }
                        let targs = enum_type_args(items, g, args, s, env, v);
                        Some(Type::Named(string_lit(g.as_str()), targs))
                    } else {
                        None
                    }
                },
                _ => None,
            },
            _ => None,
        },
        ExprKind::Field(base, name) => {
            if let ExprKind::Ident(g) = &base.kind {
                if enum_has_variant(items, g, name) {
                    proof {
                        lemma_last_genum(items@, g@, len);
                    }
                    if let Some(k) = crate::mono::cross::last_genum_index(items, g) {
                        if let Item::Enum(ge) = &items[k] {
                            let (targs, _) = solve(ge.generics.as_slice(), &Subst::new());
                            return Some(Type::Named(string_lit(g.as_str()), targs));
                        }
                    }
                    return None;
                }
            }
            match static_type(items, base, s, env) {
                Some(bt) => match bt {
                    Type::Named(sn, sargs) => {
                        proof {
                            lemma_last_gstruct(items@, sn@, len);
                        }
                        match crate::mono::cross::last_gstruct_index(items, &sn) {
                            Some(k) => {
                                if let Item::Struct(gs) = &items[k] {
                                    match first_field_index(&gs.fields, name) {
                                        Some(j) => {
                                            let fsubst = bind(gs.generics.as_slice(), sargs.as_slice());
                                            proof {
                                                lemma_bind_tv(gs.generics@, sargs@, pairs(gs.generics@, tvs(sargs@)));
                                            }
                                            let t1 = subst_apply(&gs.fields[j].ty, &fsubst);
                                            Some(subst_apply(&t1, s))
                                        },
                                        None => None,
                                    }
                                } else {
                                    None
                                }
                            },
                            None => None,
                        }
                    },
                    _ => None,
                },
                None => None,
            }
        },
        ExprKind::StructLit(name, fields) => {
            proof {
                lemma_last_gstruct(items@, name@, len);
            }
            match crate::mono::cross::last_gstruct_index(items, name) {
                Some(k) => {
                    if let Item::Struct(gs) = &items[k] {
                        proof {
                            assert(decreases_to!(*e => e.kind));
                            assert(decreases_to!(e.kind => *fields));
                        }
                        let targs = struct_type_args(items, gs, fields, s, env);
                        Some(Type::Named(string_lit(name.as_str()), targs))
                    } else {
                        None
                    }
                },
                None => Some(named(name.as_str())),
            }
        },
        _ => None,
    }
}

/// A copy of a string.
fn string_lit(t: &str) -> (r: String)
    ensures
        r@ == t@,
{
    let mut r = String::new();
    push_str(&mut r, t);
    r
}

/// The type arguments a call of the generic function `gf` with `args`
/// infers, and the parameters it could not pin; `expected` is the type the
/// call's context asks for, when there is one.
pub fn solve_call_args(
    items: &Vec<Item>,
    gf: &Func,
    args: &Vec<Expr>,
    s: &Subst,
    env: &Subst,
    expected: Option<&Type>,
) -> (r: (Vec<Type>, Vec<String>))
    requires
        s.wf(),
        env.wf(),
    ensures
        (tvs(r.0@), strs(r.1@)) == solve_call(
            items@,
            *gf,
            args@,
            s@,
            env@,
            match expected {
                Some(t) => Some(tv(*t)),
                None => None,
            },
        ),
    decreases *args, 3int, 0int,
{
    let ghost params = name_set(gf.generics@);
    let mut inf = Subst::new();
    let mut i: usize = 0;
    while i < gf.params.len()
        invariant
            0 <= i <= gf.params@.len(),
            s.wf(),
            env.wf(),
            inf.wf(),
            inf@ == arg_pass(items@, gf.params@, args@, s@, env@, params, i as int),
            params == name_set(gf.generics@),
        decreases gf.params.len() - i,
    {
        if i < args.len() {
            let lam = match &args[i].kind {
                ExprKind::Lambda(_) => true,
                _ => false,
            };
            if !lam {
                proof {
                    assert(decreases_to!(*args => args@[i as int]));
                }
                match static_type(items, &args[i], s, env) {
                    Some(at) => unify(&gf.params[i].ty, &at, gf.generics.as_slice(), &mut inf),
                    None => {},
                }
            }
        }
        i = i + 1;
    }
    if let Some(et) = expected {
        unify(&gf.ret, et, gf.generics.as_slice(), &mut inf);
    }
    let ghost inf2 = inf@;
    let mut i: usize = 0;
    while i < gf.params.len()
        invariant
            0 <= i <= gf.params@.len(),
            s.wf(),
            env.wf(),
            inf.wf(),
            inf@ == lambda_pass(items@, gf.params@, args@, s@, env@, params, inf2, i as int),
            params == name_set(gf.generics@),
        decreases gf.params.len() - i,
    {
        if i < args.len() {
            if let ExprKind::Lambda(l) = &args[i].kind {
                if let Type::Func(pdecl, rdecl) = &gf.params[i].ty {
                    let merged = union(s, &inf);
                    let mut env2 = env.copy();
                    let mut j: usize = 0;
                    while j < l.params.len()
                        invariant
                            0 <= j <= l.params@.len(),
                            merged.wf(),
                            env2.wf(),
                            env2@ == lambda_env(env@, l.params@, pdecl@, merged@, j as int),
                        decreases l.params.len() - j,
                    {
                        if j < pdecl.len() {
                            let pt = subst_apply(&pdecl[j], &merged);
                            env2.insert(l.params[j].name.clone(), pt);
                        }
                        j = j + 1;
                    }
                    if l.body.stmts.len() == 1 {
                        if let Stmt::Return(Some(r)) = &l.body.stmts[0] {
                            proof {
                                assert(decreases_to!(*args => args@[i as int]));
                                assert(decreases_to!(args@[i as int] => args@[i as int].kind));
                                assert(decreases_to!(args@[i as int].kind => *l));
                                assert(decreases_to!(*l => l.body));
                                assert(decreases_to!(l.body => l.body.stmts));
                                assert(decreases_to!(l.body.stmts => l.body.stmts@));
                                assert(decreases_to!(l.body.stmts@ => l.body.stmts@[0]));
                                assert(decreases_to!(l.body.stmts@[0] => l.body.stmts@[0]->Return_0));
                                assert(decreases_to!(l.body.stmts@[0]->Return_0 => *r));
                            }
                            match static_type(items, r, s, &env2) {
                                Some(rt) => unify(rdecl, &rt, gf.generics.as_slice(), &mut inf),
                                None => {},
                            }
                        }
                    }
                }
            }
        }
        i = i + 1;
    }
    solve(gf.generics.as_slice(), &inf)
}

/// The type arguments of the generic enum `g` that a construction of its
/// variant `v` with `payload` infers.
pub fn enum_type_args(items: &Vec<Item>, g: &String, payload: &Vec<Expr>, s: &Subst, env: &Subst, v: &String) -> (r: Vec<Type>)
    requires
        s.wf(),
        env.wf(),
        last_genum(items@, g@, items@.len() as int) is Some,
    ensures
        tvs(r@) == enum_args(items@, g@, payload@, s@, env@, v@),
    decreases *payload, 3int, 0int,
{
    proof {
        lemma_last_genum(items@, g@, items@.len() as int);
    }
    let k = match crate::mono::cross::last_genum_index(items, g) {
        Some(k) => k,
        None => {
            return Vec::new();
        },
    };
    let ge = match &items[k] {
        Item::Enum(ge) => ge,
        _ => {
            return Vec::new();
        },
    };
    let ghost params = name_set(ge.generics@);
    let mut inf = Subst::new();
    match first_variant_index(&ge.variants, v) {
        Some(j) => {
            let fs = &ge.variants[j].fields;
            let mut i: usize = 0;
            while i < fs.len()
                invariant
                    0 <= i <= fs@.len(),
                    s.wf(),
                    env.wf(),
                    inf.wf(),
                    inf@ == payload_pass(items@, fs@, payload@, s@, env@, params, i as int),
                    params == name_set(ge.generics@),
                decreases fs.len() - i,
            {
                if i < payload.len() {
                    proof {
                        assert(decreases_to!(*payload => payload@[i as int]));
                    }
                    match static_type(items, &payload[i], s, env) {
                        Some(at) => unify(&fs[i].ty, &at, ge.generics.as_slice(), &mut inf),
                        None => {},
                    }
                }
                i = i + 1;
            }
        },
        None => {
            assert(inf@ =~= Map::<Seq<char>, TypeV>::empty());
        },
    }
    let (targs, _) = solve(ge.generics.as_slice(), &inf);
    targs
}

/// The type arguments of the generic struct `gs` that a literal with
/// `fields` infers.
pub fn struct_type_args(items: &Vec<Item>, gs: &Struct, fields: &Vec<(String, Expr)>, s: &Subst, env: &Subst) -> (r: Vec<Type>)
    requires
        s.wf(),
        env.wf(),
    ensures
        tvs(r@) == infer_struct_args(items@, *gs, fields@, s@, env@),
    decreases *fields, 3int, 0int,
{
    let mut inf = Subst::new();
    let mut i: usize = 0;
    while i < fields.len()
        invariant
            0 <= i <= fields@.len(),
            s.wf(),
            env.wf(),
            inf.wf(),
            inf@ == field_pass(items@, *gs, fields@, s@, env@, i as int),
        decreases fields.len() - i,
    {
        match first_field_index(&gs.fields, &fields[i].0) {
            Some(j) => {
                proof {
                    assert(decreases_to!(*fields => fields@[i as int]));
                    assert(decreases_to!(fields@[i as int] => fields@[i as int].1));
                }
                match static_type(items, &fields[i].1, s, env) {
                    Some(vt) => unify(&gs.fields[j].ty, &vt, gs.generics.as_slice(), &mut inf),
                    None => {},
                }
            },
            None => {},
        }
        i = i + 1;
    }
    let (targs, _) = solve(gs.generics.as_slice(), &inf);
    targs
}

} // verus!
