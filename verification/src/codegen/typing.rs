//! The lowered type an expression has at code generation, read off the
//! expression, the function's locals and the declarations, without
//! generating any code.

use vstd::prelude::*;
use crate::lexer::token::opt_view;
use crate::parser::ast::{
    binds_stmts, collect_block, param_names, uses_stmts, Arm, BinOp, Expr, ExprKind, Lambda, Stmt, UnOp,
};
use crate::loader::{insert_name, no_dups, set_of, strings_view};
use crate::mono::checks::{captured, lemma_contains_view};
use crate::mono::{contains_name, name_set};
use crate::text::{chars_of, is_lit, push_str};
use super::lower::{
    clone_cty, cv, cvs, enum_names, field_names, first_of, int_ty, int_ty_bits, struct_names, variant_names, CTy, CTyV, Ctx,
    Table,
};

verus! {

/// The operators whose result is a `bool`.
pub open spec fn yields_bool(op: BinOp) -> bool {
    op == BinOp::Eq || op == BinOp::Ne || op == BinOp::Lt || op == BinOp::Le || op == BinOp::Gt
        || op == BinOp::Ge || op == BinOp::And || op == BinOp::Or
}

/// The lowered type of a struct's field, by the first struct and the first
/// field of the names.
pub open spec fn field_cty(structs: Seq<(String, Vec<(String, CTy)>)>, name: Seq<char>, field: Seq<char>) -> Option<CTyV> {
    match first_of(struct_names(structs), name, 0) {
        Some(j) => match first_of(field_names(structs[j].1@), field, 0) {
            Some(k) => Some(cv(structs[j].1@[k].1)),
            None => None,
        },
        None => None,
    }
}

/// The string type: a raw pointer to bytes.
pub open spec fn str_cty() -> CTyV {
    CTyV::RawPtr(Box::new(CTyV::Char))
}

/// The lowered static type of `e` given the declarations `ctx` and the
/// function's locals; `Unknown` where it cannot be read off.
pub open spec fn expr_cty(ctx: Ctx, locals: Map<Seq<char>, (CTy, String)>, e: Expr) -> CTyV
    decreases e,
{
    match e.kind {
        ExprKind::Int(_, s) => CTyV::Int(int_ty_bits(opt_view(s))),
        ExprKind::Float(..) => CTyV::F64,
        ExprKind::Bool(_) => CTyV::Bool,
        ExprKind::Char(_) => CTyV::Char,
        ExprKind::Rune(_) => CTyV::Int(32),
        ExprKind::Str(_) => str_cty(),
        ExprKind::Ident(n) => if locals.contains_key(n@) { cv(locals[n@].0) } else { CTyV::Unknown },
        ExprKind::Binary(op, a, _) => if yields_bool(op) { CTyV::Bool } else { expr_cty(ctx, locals, *a) },
        ExprKind::Unary(op, x) => match op {
            UnOp::Not => CTyV::Bool,
            UnOp::Neg => expr_cty(ctx, locals, *x),
            UnOp::BitNot => expr_cty(ctx, locals, *x),
            UnOp::Deref => CTyV::Unknown,
        },
        ExprKind::Call(f, _) => match f.kind {
            ExprKind::Ident(n) => if ctx.fns.map().contains_key(n@) {
                cv(ctx.fns.map()[n@].0)
            } else {
                CTyV::Unknown
            },
            ExprKind::Field(base, m) => if expr_cty(ctx, locals, *base) is Error {
                if m@ == "toString"@ {
                    str_cty()
                } else if m@ == "exists"@ {
                    CTyV::Bool
                } else {
                    CTyV::Unknown
                }
            } else {
                CTyV::Unknown
            },
            _ => CTyV::Unknown,
        },
        ExprKind::Field(base, name) => match expr_cty(ctx, locals, *base) {
            CTyV::Struct(t) => match field_cty(ctx.structs@, t, name@) {
                Some(ft) => ft,
                None => CTyV::Unknown,
            },
            CTyV::Slice(elem) => if name@ == "ptr"@ {
                CTyV::RawPtr(elem)
            } else if name@ == "len"@ {
                CTyV::Int(64)
            } else {
                CTyV::Unknown
            },
            CTyV::Error => if name@ == "message"@ { str_cty() } else { CTyV::Unknown },
            _ => CTyV::Unknown,
        },
        ExprKind::Index(base, _) => match expr_cty(ctx, locals, *base) {
            CTyV::Array(t, _) => *t,
            CTyV::Slice(t) => *t,
            CTyV::Ptr(t) => *t,
            CTyV::RawPtr(t) => *t,
            _ => CTyV::Unknown,
        },
        ExprKind::StructLit(name, _) => if name@ == "error"@ { CTyV::Error } else { CTyV::Struct(name@) },
        ExprKind::Tuple(xs) => CTyV::Tuple(exprs_cty(ctx, locals, xs@)),
        _ => CTyV::Unknown,
    }
}

/// The lowered static types of a list of expressions.
pub open spec fn exprs_cty(ctx: Ctx, locals: Map<Seq<char>, (CTy, String)>, xs: Seq<Expr>) -> Seq<CTyV>
    decreases xs,
{
    Seq::new(xs.len(), |i: int| if 0 <= i < xs.len() { expr_cty(ctx, locals, xs[i]) } else { CTyV::Unknown })
}

fn name_is(s: &String, lit: &str) -> (r: bool)
    ensures
        r == (s@ == lit@),
{
    let cs = chars_of(s.as_str());
    is_lit(cs.as_slice(), lit)
}

fn str_type() -> (t: CTy)
    ensures
        cv(t) == str_cty(),
{
    let t = CTy::RawPtr(Box::new(CTy::Char));
    assert(cv(CTy::Char) == CTyV::Char);
    t
}

/// The lowered static type of `e`, read off the expression, the function's
/// `locals` (each with its lowered type and slot) and the declarations in
/// `ctx`; `Unknown` where it cannot be read off.
#[verifier::loop_isolation(false)]
pub fn expr_type(ctx: &Ctx, locals: &Table<(CTy, String)>, e: &Expr) -> (r: CTy)
    ensures
        cv(r) == expr_cty(*ctx, locals.map(), *e),
    decreases e,
{
    match &e.kind {
        ExprKind::Int(_, s) => int_ty(s),
        ExprKind::Float(..) => CTy::F64,
        ExprKind::Bool(_) => CTy::Bool,
        ExprKind::Char(_) => CTy::Char,
        ExprKind::Rune(_) => CTy::Int(32),
        ExprKind::Str(_) => str_type(),
        ExprKind::Ident(n) => match locals.get(n) {
            Some(entry) => clone_cty(&entry.0),
            None => CTy::Unknown,
        },
        ExprKind::Binary(op, a, _) => {
            let b = match op {
                BinOp::Eq | BinOp::Ne | BinOp::Lt | BinOp::Le | BinOp::Gt | BinOp::Ge | BinOp::And | BinOp::Or => true,
                _ => false,
            };
            if b {
                CTy::Bool
            } else {
                expr_type(ctx, locals, a)
            }
        },
        ExprKind::Unary(op, x) => match op {
            UnOp::Not => CTy::Bool,
            UnOp::Neg => expr_type(ctx, locals, x),
            UnOp::BitNot => expr_type(ctx, locals, x),
            UnOp::Deref => CTy::Unknown,
        },
        ExprKind::Call(f, _) => match &f.kind {
            ExprKind::Ident(n) => match ctx.fns.get(n) {
                Some(sig) => clone_cty(&sig.0),
                None => CTy::Unknown,
            },
            ExprKind::Field(base, m) => {
                let bt = expr_type(ctx, locals, base);
                if let CTy::Error = bt {
                    proof {
                        reveal_strlit("toString");
                        reveal_strlit("exists");
                    }
                    if name_is(m, "toString") {
                        str_type()
                    } else if name_is(m, "exists") {
                        CTy::Bool
                    } else {
                        CTy::Unknown
                    }
                } else {
                    CTy::Unknown
                }
            },
            _ => CTy::Unknown,
        },
        ExprKind::Field(base, name) => {
            let bt = expr_type(ctx, locals, base);
            match bt {
                CTy::Struct(t) => match ctx.field(&t, name) {
                    Some(p) => p.1,
                    None => CTy::Unknown,
                },
                CTy::Slice(elem) => {
                    if name_is(name, "ptr") {
                        CTy::RawPtr(elem)
                    } else if name_is(name, "len") {
                        CTy::Int(64)
                    } else {
                        CTy::Unknown
                    }
                },
                CTy::Error => {
                    if name_is(name, "message") {
                        str_type()
                    } else {
                        CTy::Unknown
                    }
                },
                _ => CTy::Unknown,
            }
        },
        ExprKind::Index(base, _) => {
            let bt = expr_type(ctx, locals, base);
            match bt {
                CTy::Array(t, _) => *t,
                CTy::Slice(t) => *t,
                CTy::Ptr(t) => *t,
                CTy::RawPtr(t) => *t,
                _ => CTy::Unknown,
            }
        },
        ExprKind::StructLit(name, _) => {
            if name_is(name, "error") {
                CTy::Error
            } else {
                let mut s = String::new();
                push_str(&mut s, name.as_str());
                CTy::Struct(s)
            }
        },
        ExprKind::Tuple(xs) => {
            let mut out: Vec<CTy> = Vec::new();
            let mut i: usize = 0;
            while i < xs.len()
                invariant
                    0 <= i <= xs@.len(),
                    out@.len() == i,
                    forall|j: int| 0 <= j < i ==> cv(#[trigger] out@[j]) == expr_cty(*ctx, locals.map(), xs@[j]),
                decreases xs.len() - i,
            {
                proof {
                    assert(decreases_to!(*e => e.kind));
                    assert(decreases_to!(e.kind => *xs));
                    assert(decreases_to!(*xs => xs@[i as int]));
                }
                out.push(expr_type(ctx, locals, &xs[i]));
                i = i + 1;
            }
            assert(cvs(out@) =~= exprs_cty(*ctx, locals.map(), xs@));
            CTy::Tuple(out)
        },
        _ => CTy::Unknown,
    }
}

/// Whether `ctx` declares a variant `v` of an enum `en`.
pub open spec fn has_variant(ctx: Ctx, en: Seq<char>, v: Seq<char>) -> bool {
    match first_of(enum_names(ctx.enums@), en, 0) {
        Some(j) => first_of(variant_names(ctx.enums@[j].variants@), v, 0) is Some,
        None => false,
    }
}

/// The enum and variant names `e` spells when it is `Enum.Variant` of a
/// declared variant.
pub open spec fn enum_variant_of(ctx: Ctx, e: Expr) -> Option<(Seq<char>, Seq<char>)> {
    match e.kind {
        ExprKind::Field(base, v) => match base.kind {
            ExprKind::Ident(en) => if has_variant(ctx, en@, v@) { Some((en@, v@)) } else { None },
            _ => None,
        },
        _ => None,
    }
}

/// Recognizes an `Enum.Variant` expression naming a declared variant.
pub fn as_enum_variant(ctx: &Ctx, e: &Expr) -> (r: Option<(String, String)>)
    ensures
        match enum_variant_of(*ctx, *e) {
            Some(p) => r matches Some(q) && q.0@ == p.0 && q.1@ == p.1,
            None => r is None,
        },
{
    if let ExprKind::Field(base, v) = &e.kind {
        if let ExprKind::Ident(en) = &base.kind {
            if ctx.variant(en, v).is_some() {
                let mut a = String::new();
                push_str(&mut a, en.as_str());
                let mut b = String::new();
                push_str(&mut b, v.as_str());
                return Some((a, b));
            }
        }
    }
    None
}

/// The type a `match` yields: that of the tail expression of the first arm
/// whose type can be read off, else a 64-bit integer.
pub open spec fn match_ty_from(ctx: Ctx, locals: Map<Seq<char>, (CTy, String)>, arms: Seq<Arm>, i: int) -> CTyV
    decreases arms.len() - i,
{
    if i < 0 || i >= arms.len() {
        CTyV::Int(64)
    } else {
        let stmts = arms[i].body.stmts@;
        if stmts.len() > 0 && stmts.last() is Expr && expr_cty(ctx, locals, stmts.last()->Expr_0) != CTyV::Unknown {
            expr_cty(ctx, locals, stmts.last()->Expr_0)
        } else {
            match_ty_from(ctx, locals, arms, i + 1)
        }
    }
}

/// The lowered type a `match` over `arms` yields.
pub fn match_result_ty(ctx: &Ctx, locals: &Table<(CTy, String)>, arms: &Vec<Arm>) -> (r: CTy)
    ensures
        cv(r) == match_ty_from(*ctx, locals.map(), arms@, 0),
{
    let mut i: usize = 0;
    while i < arms.len()
        invariant
            0 <= i <= arms@.len(),
            match_ty_from(*ctx, locals.map(), arms@, 0) == match_ty_from(*ctx, locals.map(), arms@, i as int),
        decreases arms.len() - i,
    {
        let n = arms[i].body.stmts.len();
        if n > 0 {
            if let Stmt::Expr(e) = &arms[i].body.stmts[n - 1] {
                let t = expr_type(ctx, locals, e);
                let unknown = match t {
                    CTy::Unknown => true,
                    _ => false,
                };
                if !unknown {
                    return t;
                }
            }
        }
        i = i + 1;
    }
    CTy::Int(64)
}

/// The locals among `cs` (the first `i`), each with its lowered type, in order.
pub open spec fn local_caps(locals: Map<Seq<char>, (CTy, String)>, cs: Seq<Seq<char>>, i: int) -> Seq<(Seq<char>, CTyV)>
    decreases i,
{
    if i <= 0 {
        Seq::empty()
    } else {
        let prev = local_caps(locals, cs, i - 1);
        if locals.contains_key(cs[i - 1]) {
            prev.push((cs[i - 1], cv(locals[cs[i - 1]].0)))
        } else {
            prev
        }
    }
}

proof fn lemma_local_caps_push(locals: Map<Seq<char>, (CTy, String)>, cs: Seq<Seq<char>>, c: Seq<char>, i: int)
    requires
        0 <= i <= cs.len(),
    ensures
        local_caps(locals, cs.push(c), i) == local_caps(locals, cs, i),
    decreases i,
{
    if i > 0 {
        lemma_local_caps_push(locals, cs, c, i - 1);
        assert(cs.push(c)[i - 1] == cs[i - 1]);
    }
}

/// The locals a lambda captures: each name its body reads from the
/// enclosing function, once, in the order of first read, with its type.
pub fn lambda_captures(locals: &Table<(CTy, String)>, l: &Lambda) -> (r: Vec<(String, CTy)>)
    ensures
        r@.len() == local_caps(locals.map(), lambda_captures_spec(*l), lambda_captures_spec(*l).len() as int).len(),
        forall|j: int| 0 <= j < r@.len() ==> (#[trigger] r@[j]).0@ == local_caps(
            locals.map(),
            lambda_captures_spec(*l),
            lambda_captures_spec(*l).len() as int,
        )[j].0 && cv(r@[j].1) == local_caps(
            locals.map(),
            lambda_captures_spec(*l),
            lambda_captures_spec(*l).len() as int,
        )[j].1,
{
    let mut bound: Vec<String> = Vec::new();
    let mut k: usize = 0;
    assert(set_of(bound@) =~= Set::<Seq<char>>::empty());
    while k < l.params.len()
        invariant
            0 <= k <= l.params@.len(),
            no_dups(bound@),
            set_of(bound@) == Set::new(
                |s: Seq<char>| exists|j: int| 0 <= j < k && (#[trigger] l.params@[j]).name@ == s,
            ),
        decreases l.params.len() - k,
    {
        let ghost before = set_of(bound@);
        let cs = chars_of(l.params[k].name.as_str());
        insert_name(&mut bound, &cs);
        assert(set_of(bound@) =~= Set::new(
            |s: Seq<char>| exists|j: int| 0 <= j < k + 1 && (#[trigger] l.params@[j]).name@ == s,
        )) by {
            assert forall|s: Seq<char>| set_of(bound@).contains(s) implies exists|j: int|
                0 <= j < k + 1 && (#[trigger] l.params@[j]).name@ == s by {
                if s != cs@ {
                    assert(before.contains(s));
                    let j = choose|j: int| 0 <= j < k && (#[trigger] l.params@[j]).name@ == s;
                    assert(l.params@[j].name@ == s);
                } else {
                    assert(l.params@[k as int].name@ == s);
                }
            }
            assert forall|s: Seq<char>| (exists|j: int| 0 <= j < k + 1 && (#[trigger] l.params@[j]).name@ == s)
                implies set_of(bound@).contains(s) by {
                let j = choose|j: int| 0 <= j < k + 1 && (#[trigger] l.params@[j]).name@ == s;
                if j < k {
                    assert(before.contains(s));
                }
            }
        }
        k = k + 1;
    }
    assert(set_of(bound@) =~= param_names(l.params@));
    let mut used: Vec<String> = Vec::new();
    collect_block(&l.body, &mut used, &mut bound);
    let ghost n = l.body.stmts@.len() as int;
    let ghost uv = uses_stmts(l.body.stmts@, n);
    let ghost bset = param_names(l.params@).union(binds_stmts(l.body.stmts@, n));
    assert(strings_view(used@) =~= uv);
    assert(name_set(bound@) =~= bset);
    let mut done: Vec<String> = Vec::new();
    let mut caps: Vec<(String, CTy)> = Vec::new();
    let mut i: usize = 0;
    while i < used.len()
        invariant
            0 <= i <= used@.len(),
            strings_view(used@) == uv,
            uv.len() == used@.len(),
            name_set(bound@) == bset,
            strings_view(done@) == captured(uv, bset, i as int),
            caps@.len() == local_caps(locals.map(), captured(uv, bset, i as int), captured(uv, bset, i as int).len() as int).len(),
            forall|j: int| 0 <= j < caps@.len() ==> (#[trigger] caps@[j]).0@ == local_caps(
                locals.map(),
                captured(uv, bset, i as int),
                captured(uv, bset, i as int).len() as int,
            )[j].0 && cv(caps@[j].1) == local_caps(
                locals.map(),
                captured(uv, bset, i as int),
                captured(uv, bset, i as int).len() as int,
            )[j].1,
        decreases used.len() - i,
    {
        let ghost prev = captured(uv, bset, i as int);
        let c = &used[i];
        assert(uv[i as int] == c@);
        proof {
            lemma_contains_view(done@, c@);
        }
        if contains_name(bound.as_slice(), c) || contains_name(done.as_slice(), c) {
            i = i + 1;
            continue;
        }
        done.push(c.clone());
        assert(strings_view(done@) =~= prev.push(c@));
        proof {
            lemma_local_caps_push(locals.map(), prev, c@, prev.len() as int);
        }
        match locals.get(c) {
            Some(entry) => {
                let mut nm = String::new();
                push_str(&mut nm, c.as_str());
                caps.push((nm, clone_cty(&entry.0)));
            },
            None => {},
        }
        i = i + 1;
    }
    caps
}

/// The names a lambda reads from its enclosing scope, each once, in the
/// order of their first read.
pub open spec fn lambda_captures_spec(l: Lambda) -> Seq<Seq<char>> {
    crate::mono::checks::lambda_captures(l)
}

} // verus!
