//! Desugaring pass.
//!
//! Rewrites monadic `do` notation into nested `bind` and `unit` calls before
//! name resolution and type checking. A do block
//!
//! ```text
//! do { x <- m; y <- n; x + y }
//! ```
//!
//! becomes `bind(m, lambda (x) -> { return bind(n, lambda (y) -> { return unit(x + y) }) })`.
//! The continuation lambda's parameter and return types come from the chosen
//! `bind` function's second parameter, a function type `(A) -> B`. A
//! `do Name { }` block desugars to `Name.bind` and `Name.unit`, so several
//! monads coexist; a bare `do` uses the top level `bind` and `unit`.

use vstd::prelude::*;
use crate::diag::Span;
use crate::mono::{clone_type, named};
use crate::parser::ast::{
    tv, Bind, Block, DoBind, Expr, ExprKind, Func, Item, Lambda, Match, Module, Param, Pattern,
    Stmt, Type, TypeV,
};
use crate::text::{chars_eq, chars_of, dec, push_dec, push_str};

verus! {

/// The fallback continuation type.
pub open spec fn int64_v() -> TypeV {
    TypeV::Named("int64"@, seq![])
}

/// The continuation types a function offers as a `bind`: from a second
/// parameter of function type `(A) -> B`, the pair `(A, B)` (`A` is `int64`
/// when that type takes no parameter).
pub open spec fn func_cont(f: Func) -> Option<(TypeV, TypeV)> {
    if f.params@.len() > 1 && f.params@[1].ty is Func {
        let ps = f.params@[1].ty->Func_0;
        let r = f.params@[1].ty->Func_1;
        Some((if ps@.len() > 0 { tv(ps@[0]) } else { int64_v() }, tv(*r)))
    } else {
        None
    }
}

/// The parameter and return types of the continuation lambda passed to
/// `bind_name`: those of the first function from item `i` on so named that
/// offers them; `int64` and `int64` when there is none.
pub open spec fn cont_spec(items: Seq<Item>, bind_name: Seq<char>, i: int) -> (TypeV, TypeV)
    decreases items.len() - i,
{
    if i < 0 || i >= items.len() {
        (int64_v(), int64_v())
    } else {
        match items[i] {
            Item::Func(f) => if f.name@ == bind_name && func_cont(f) is Some {
                func_cont(f)->0
            } else {
                cont_spec(items, bind_name, i + 1)
            },
            _ => cont_spec(items, bind_name, i + 1),
        }
    }
}

pub open spec fn opt_tv(t: Option<Type>) -> Option<TypeV> {
    match t {
        Some(x) => Some(tv(x)),
        None => None,
    }
}

/// Parameters copied: flags, names and types.
pub open spec fn params_same(o: Seq<Param>, n: Seq<Param>) -> bool {
    o.len() == n.len() && forall|i: int|
        0 <= i < o.len() ==> (#[trigger] n[i]).using == o[i].using && n[i].name == o[i].name && tv(n[i].ty)
            == tv(o[i].ty)
}

pub open spec fn binds_same(o: Seq<Bind>, n: Seq<Bind>) -> bool {
    o.len() == n.len() && forall|i: int| 0 <= i < o.len() ==> (#[trigger] n[i]).name == o[i].name && opt_tv(n[i].ty) == opt_tv(o[i].ty)
}

pub open spec fn pattern_same(o: Pattern, n: Pattern) -> bool {
    match o {
        Pattern::Wildcard => n is Wildcard,
        Pattern::Ident(x) => n matches Pattern::Ident(y) && y == x,
        Pattern::Variant(x, bs) => n matches Pattern::Variant(y, cs) && y == x && cs@ == bs@,
    }
}

/// The name a bind's continuation parameter gets: its own name, or for a bare
/// expression a `$doI` name that no source identifier can spell.
pub open spec fn cont_param_name(b: DoBind, i: int) -> Seq<char> {
    match b.name {
        Some(s) => s@,
        None => "$do"@ + dec(i as nat),
    }
}

/// `n` is the call `f(args)` of the named function, all at `span`.
pub open spec fn is_named_call(n: Expr, f: Seq<char>, span: Span) -> bool {
    &&& n.span == span
    &&& n.kind is Call
    &&& n.kind->Call_0.span == span
    &&& n.kind->Call_0.kind is Ident
    &&& n.kind->Call_0.kind->Ident_0@ == f
}

/// `n` is `e` with every `do` block rewritten into calls.
pub open spec fn expr_desugared(items: Seq<Item>, o: Expr, n: Expr) -> bool
    decreases o, 0int,
{
    match o.kind {
        ExprKind::Do(monad, binds) => do_desugared(items, monad, binds@, o.span, n),
        _ => n.span == o.span && match o.kind {
            ExprKind::Unary(op, x) => n.kind matches ExprKind::Unary(op2, y) && op2 == op && expr_desugared(items, *x, *y),
            ExprKind::Binary(op, a, b) => n.kind matches ExprKind::Binary(op2, c, d) && op2 == op
                && expr_desugared(items, *a, *c) && expr_desugared(items, *b, *d),
            ExprKind::Index(a, b) => n.kind matches ExprKind::Index(c, d) && expr_desugared(items, *a, *c)
                && expr_desugared(items, *b, *d),
            ExprKind::Range(a, b, incl) => n.kind matches ExprKind::Range(c, d, incl2) && incl2 == incl && expr_desugared(items, *a, *c)
                && expr_desugared(items, *b, *d),
            ExprKind::Call(f, args) => n.kind matches ExprKind::Call(g, args2) && expr_desugared(items, *f, *g)
                && exprs_desugared(items, args@, args2@),
            ExprKind::Field(x, name) => n.kind matches ExprKind::Field(y, name2) && name2 == name && expr_desugared(items, *x, *y),
            ExprKind::Tuple(xs) => n.kind matches ExprKind::Tuple(ys) && exprs_desugared(items, xs@, ys@),
            ExprKind::Array(xs) => n.kind matches ExprKind::Array(ys) && exprs_desugared(items, xs@, ys@),
            ExprKind::StructLit(name, fs) => n.kind matches ExprKind::StructLit(name2, gs) && name2 == name && fs@.len()
                == gs@.len() && forall|i: int|
                0 <= i < fs@.len() ==> (#[trigger] gs@[i]).0 == fs@[i].0 && expr_desugared(items, fs@[i].1, gs@[i].1),
            ExprKind::Lambda(l) => n.kind matches ExprKind::Lambda(l2) && params_same(l.params@, l2.params@) && tv(l2.ret)
                == tv(l.ret) && stmts_desugared(items, l.body.stmts@, l2.body.stmts@),
            ExprKind::Match(m) => n.kind matches ExprKind::Match(m2) && match_desugared(items, *m, *m2),
            ExprKind::SizeofType(t) => n.kind matches ExprKind::SizeofType(t2) && tv(t2) == tv(t),
            _ => n.kind == o.kind,
        },
    }
}

/// A `do` block's calls: `unit(0)` for an empty block; otherwise the chain of
/// `bind` calls from the first bind.
pub open spec fn do_desugared(items: Seq<Item>, monad: Option<String>, binds: Seq<DoBind>, span: Span, n: Expr) -> bool
    decreases binds, binds.len() + 1,
{
    let bind_name = match monad {
        Some(m) => m@ + ".bind"@,
        None => "bind"@,
    };
    let unit_name = match monad {
        Some(m) => m@ + ".unit"@,
        None => "unit"@,
    };
    if binds.len() == 0 {
        is_named_call(n, unit_name, span) && n.kind->Call_1@.len() == 1 && n.kind->Call_1@[0] == (Expr {
            kind: ExprKind::Int(0, None),
            span,
        })
    } else {
        do_chain(items, bind_name, unit_name, cont_spec(items, bind_name, 0), binds, 0, span, n)
    }
}

/// The calls for the binds from `i`: the last one lifted with `unit`; each
/// earlier one a `bind` of its value to a lambda whose parameter is its name
/// and whose body returns the calls for the binds after it.
pub open spec fn do_chain(
    items: Seq<Item>,
    bind_name: Seq<char>,
    unit_name: Seq<char>,
    cont: (TypeV, TypeV),
    binds: Seq<DoBind>,
    i: int,
    span: Span,
    n: Expr,
) -> bool
    decreases binds, binds.len() - i,
{
    if i < 0 || i >= binds.len() {
        false
    } else if i == binds.len() - 1 {
        is_named_call(n, unit_name, span) && n.kind->Call_1@.len() == 1 && expr_desugared(
            items,
            binds[i].expr,
            n.kind->Call_1@[0],
        )
    } else {
        let args = n.kind->Call_1@;
        let l = args[1].kind->Lambda_0;
        let body = l.body.stmts@;
        &&& is_named_call(n, bind_name, span)
        &&& args.len() == 2
        &&& expr_desugared(items, binds[i].expr, args[0])
        &&& args[1].span == span
        &&& args[1].kind is Lambda
        &&& l.params@.len() == 1
        &&& !l.params@[0].using
        &&& l.params@[0].name@ == cont_param_name(binds[i], i)
        &&& tv(l.params@[0].ty) == cont.0
        &&& tv(l.ret) == cont.1
        &&& body.len() == 1
        &&& body[0] is Return
        &&& body[0]->Return_0 is Some
        &&& do_chain(items, bind_name, unit_name, cont, binds, i + 1, span, body[0]->Return_0->0)
    }
}

pub open spec fn exprs_desugared(items: Seq<Item>, o: Seq<Expr>, n: Seq<Expr>) -> bool
    decreases o, 0int,
{
    o.len() == n.len() && forall|i: int| 0 <= i < o.len() ==> expr_desugared(items, o[i], #[trigger] n[i])
}

pub open spec fn stmt_desugared(items: Seq<Item>, o: Stmt, n: Stmt) -> bool
    decreases o, 0int,
{
    match o {
        Stmt::Let(l) => n matches Stmt::Let(l2) && l2.mutable == l.mutable && l2.is_ref == l.is_ref && l2.infer
            == l.infer && binds_same(l.binds@, l2.binds@) && expr_desugared(items, l.value, l2.value),
        Stmt::Assign(a, b) => n matches Stmt::Assign(c, d) && expr_desugared(items, a, c) && expr_desugared(items, b, d),
        Stmt::AssignOp(op, a, b) => n matches Stmt::AssignOp(op2, c, d) && op2 == op && expr_desugared(items, a, c)
            && expr_desugared(items, b, d),
        Stmt::Break(_) => n == o,
        Stmt::Continue(_) => n == o,
        Stmt::Return(Some(e)) => n matches Stmt::Return(Some(e2)) && expr_desugared(items, e, e2),
        Stmt::Return(None) => n is Return && n->Return_0 is None,
        Stmt::Defer(e) => n matches Stmt::Defer(e2) && expr_desugared(items, e, e2),
        Stmt::Expr(e) => n matches Stmt::Expr(e2) && expr_desugared(items, e, e2),
        Stmt::If(i) => n matches Stmt::If(i2) && expr_desugared(items, i.cond, i2.cond) && stmts_desugared(
            items,
            i.then_block.stmts@,
            i2.then_block.stmts@,
        ) && match i.els {
            Some(b) => i2.els matches Some(b2) && stmts_desugared(items, b.stmts@, b2.stmts@),
            None => i2.els is None,
        },
        Stmt::While(w) => n matches Stmt::While(w2) && w2.post_test == w.post_test && expr_desugared(items, w.cond, w2.cond)
            && stmts_desugared(items, w.body.stmts@, w2.body.stmts@),
        Stmt::For(f) => n matches Stmt::For(f2) && f2.var == f.var && expr_desugared(items, f.iter, f2.iter)
            && stmts_desugared(items, f.body.stmts@, f2.body.stmts@),
        Stmt::Match(m) => n matches Stmt::Match(m2) && match_desugared(items, m, m2),
    }
}

pub open spec fn stmts_desugared(items: Seq<Item>, o: Seq<Stmt>, n: Seq<Stmt>) -> bool
    decreases o, 0int,
{
    o.len() == n.len() && forall|i: int| 0 <= i < o.len() ==> stmt_desugared(items, o[i], #[trigger] n[i])
}

pub open spec fn match_desugared(items: Seq<Item>, o: Match, n: Match) -> bool
    decreases o, 0int,
{
    expr_desugared(items, *o.scrut, *n.scrut) && o.arms@.len() == n.arms@.len() && forall|i: int|
        0 <= i < o.arms@.len() ==> pattern_same(o.arms@[i].pat, (#[trigger] n.arms@[i]).pat) && stmts_desugared(
            items,
            o.arms@[i].body.stmts@,
            n.arms@[i].body.stmts@,
        )
}

/// No `do` block is left in the expression.
pub open spec fn do_free(e: Expr) -> bool
    decreases e, 0int,
{
    match e.kind {
        ExprKind::Do(_, _) => false,
        ExprKind::Unary(_, x) => do_free(*x),
        ExprKind::Binary(_, a, b) => do_free(*a) && do_free(*b),
        ExprKind::Index(a, b) => do_free(*a) && do_free(*b),
        ExprKind::Range(a, b, _) => do_free(*a) && do_free(*b),
        ExprKind::Call(f, args) => do_free(*f) && exprs_do_free(args@),
        ExprKind::Field(x, _) => do_free(*x),
        ExprKind::Tuple(xs) => exprs_do_free(xs@),
        ExprKind::Array(xs) => exprs_do_free(xs@),
        ExprKind::StructLit(_, fs) => forall|i: int| 0 <= i < fs@.len() ==> do_free(#[trigger] fs@[i].1),
        ExprKind::Lambda(l) => stmts_do_free(l.body.stmts@),
        ExprKind::Match(m) => match_do_free(*m),
        _ => true,
    }
}

pub open spec fn exprs_do_free(v: Seq<Expr>) -> bool
    decreases v, 0int,
{
    forall|i: int| 0 <= i < v.len() ==> do_free(#[trigger] v[i])
}

pub open spec fn stmt_do_free(s: Stmt) -> bool
    decreases s, 0int,
{
    match s {
        Stmt::Let(l) => do_free(l.value),
        Stmt::Assign(a, b) => do_free(a) && do_free(b),
        Stmt::AssignOp(_, a, b) => do_free(a) && do_free(b),
        Stmt::Break(_) => true,
        Stmt::Continue(_) => true,
        Stmt::Return(Some(e)) => do_free(e),
        Stmt::Return(None) => true,
        Stmt::Defer(e) => do_free(e),
        Stmt::Expr(e) => do_free(e),
        Stmt::If(i) => do_free(i.cond) && stmts_do_free(i.then_block.stmts@) && match i.els {
            Some(b) => stmts_do_free(b.stmts@),
            None => true,
        },
        Stmt::While(w) => do_free(w.cond) && stmts_do_free(w.body.stmts@),
        Stmt::For(f) => do_free(f.iter) && stmts_do_free(f.body.stmts@),
        Stmt::Match(m) => match_do_free(m),
    }
}

pub open spec fn stmts_do_free(v: Seq<Stmt>) -> bool
    decreases v, 0int,
{
    forall|i: int| 0 <= i < v.len() ==> stmt_do_free(#[trigger] v[i])
}

pub open spec fn match_do_free(m: Match) -> bool
    decreases m, 0int,
{
    do_free(*m.scrut) && forall|i: int| 0 <= i < m.arms@.len() ==> stmts_do_free(#[trigger] m.arms@[i].body.stmts@)
}

/// No `do` block is left in the item's functions and methods.
pub open spec fn item_do_free(it: Item) -> bool {
    match it {
        Item::Func(f) => stmts_do_free(f.body.stmts@),
        Item::Impl(im) => forall|k: int| 0 <= k < im.methods@.len() ==> stmts_do_free(#[trigger] im.methods@[k].body.stmts@),
        _ => true,
    }
}

proof fn lemma_expr_do_free(items: Seq<Item>, o: Expr, n: Expr)
    requires
        expr_desugared(items, o, n),
    ensures
        do_free(n),
    decreases o, 0int,
{
    match o.kind {
        ExprKind::Do(monad, binds) => {
            assert(decreases_to!(o => o.kind));
            assert(decreases_to!(o.kind => binds));
            assert(decreases_to!(binds => binds@));
            lemma_do_do_free(items, monad, binds@, o.span, n);
        },
        ExprKind::Unary(_, x) => lemma_expr_do_free(items, *x, *n.kind->Unary_1),
        ExprKind::Binary(_, a, b) => {
            lemma_expr_do_free(items, *a, *n.kind->Binary_1);
            lemma_expr_do_free(items, *b, *n.kind->Binary_2);
        },
        ExprKind::Index(a, b) => {
            lemma_expr_do_free(items, *a, *n.kind->Index_0);
            lemma_expr_do_free(items, *b, *n.kind->Index_1);
        },
        ExprKind::Range(a, b, _) => {
            lemma_expr_do_free(items, *a, *n.kind->Range_0);
            lemma_expr_do_free(items, *b, *n.kind->Range_1);
        },
        ExprKind::Call(f, args) => {
            lemma_expr_do_free(items, *f, *n.kind->Call_0);
            assert(decreases_to!(o => o.kind));
            assert(decreases_to!(o.kind => args));
            assert(decreases_to!(args => args@));
            lemma_exprs_do_free(items, args@, n.kind->Call_1@);
        },
        ExprKind::Field(x, _) => lemma_expr_do_free(items, *x, *n.kind->Field_0),
        ExprKind::Tuple(xs) => {
            assert(decreases_to!(o => o.kind));
            assert(decreases_to!(o.kind => xs));
            assert(decreases_to!(xs => xs@));
            lemma_exprs_do_free(items, xs@, n.kind->Tuple_0@);
        },
        ExprKind::Array(xs) => {
            assert(decreases_to!(o => o.kind));
            assert(decreases_to!(o.kind => xs));
            assert(decreases_to!(xs => xs@));
            lemma_exprs_do_free(items, xs@, n.kind->Array_0@);
        },
        ExprKind::StructLit(_, fs) => {
            let gs = n.kind->StructLit_1@;
            assert forall|i: int| 0 <= i < gs.len() implies do_free(#[trigger] gs[i].1) by {
                assert(decreases_to!(o => o.kind));
                assert(decreases_to!(o.kind => fs));
                assert(decreases_to!(fs => fs@));
                assert(decreases_to!(fs@ => fs@[i]));
                assert(decreases_to!(fs@[i] => fs@[i].1));
                lemma_expr_do_free(items, fs@[i].1, gs[i].1);
            }
        },
        ExprKind::Lambda(l) => {
            assert(decreases_to!(o => o.kind));
            assert(decreases_to!(o.kind => l));
            assert(decreases_to!(l => l.body));
            assert(decreases_to!(l.body => l.body.stmts));
            assert(decreases_to!(l.body.stmts => l.body.stmts@));
            lemma_stmts_do_free(items, l.body.stmts@, n.kind->Lambda_0.body.stmts@);
        },
        ExprKind::Match(m) => lemma_match_do_free(items, *m, *n.kind->Match_0),
        _ => {},
    }
}

proof fn lemma_exprs_do_free(items: Seq<Item>, o: Seq<Expr>, n: Seq<Expr>)
    requires
        exprs_desugared(items, o, n),
    ensures
        exprs_do_free(n),
    decreases o, 0int,
{
    assert forall|i: int| 0 <= i < n.len() implies do_free(#[trigger] n[i]) by {
        lemma_expr_do_free(items, o[i], n[i]);
    }
}

proof fn lemma_do_do_free(items: Seq<Item>, monad: Option<String>, binds: Seq<DoBind>, span: Span, n: Expr)
    requires
        do_desugared(items, monad, binds, span, n),
    ensures
        do_free(n),
    decreases binds, binds.len() + 1,
{
    let bind_name = match monad {
        Some(m) => m@ + ".bind"@,
        None => "bind"@,
    };
    let unit_name = match monad {
        Some(m) => m@ + ".unit"@,
        None => "unit"@,
    };
    if binds.len() == 0 {
        assert(do_free(n.kind->Call_1@[0]));
        assert(exprs_do_free(n.kind->Call_1@));
        assert(do_free(*n.kind->Call_0));
    } else {
        lemma_chain_do_free(items, bind_name, unit_name, cont_spec(items, bind_name, 0), binds, 0, span, n);
    }
}

proof fn lemma_chain_do_free(
    items: Seq<Item>,
    bind_name: Seq<char>,
    unit_name: Seq<char>,
    cont: (TypeV, TypeV),
    binds: Seq<DoBind>,
    i: int,
    span: Span,
    n: Expr,
)
    requires
        do_chain(items, bind_name, unit_name, cont, binds, i, span, n),
    ensures
        do_free(n),
    decreases binds, binds.len() - i,
{
    let args = n.kind->Call_1@;
    assert(decreases_to!(binds => binds[i]));
    assert(decreases_to!(binds[i] => binds[i].expr));
    lemma_expr_do_free(items, binds[i].expr, args[0]);
    if i < binds.len() - 1 {
        let body = args[1].kind->Lambda_0.body.stmts@;
        lemma_chain_do_free(items, bind_name, unit_name, cont, binds, i + 1, span, body[0]->Return_0->0);
        assert(stmt_do_free(body[0]));
        assert(stmts_do_free(body));
        assert(do_free(args[1]));
    }
    assert(exprs_do_free(args));
    assert(do_free(*n.kind->Call_0));
}

proof fn lemma_stmt_do_free(items: Seq<Item>, o: Stmt, n: Stmt)
    requires
        stmt_desugared(items, o, n),
    ensures
        stmt_do_free(n),
    decreases o, 0int,
{
    match o {
        Stmt::Let(l) => lemma_expr_do_free(items, l.value, n->Let_0.value),
        Stmt::Assign(a, b) => {
            lemma_expr_do_free(items, a, n->Assign_0);
            lemma_expr_do_free(items, b, n->Assign_1);
        },
        Stmt::AssignOp(_, a, b) => {
            lemma_expr_do_free(items, a, n->AssignOp_1);
            lemma_expr_do_free(items, b, n->AssignOp_2);
        },
        Stmt::Break(_) => {},
        Stmt::Continue(_) => {},
        Stmt::Return(Some(e)) => lemma_expr_do_free(items, e, n->Return_0->0),
        Stmt::Return(None) => {},
        Stmt::Defer(e) => lemma_expr_do_free(items, e, n->Defer_0),
        Stmt::Expr(e) => lemma_expr_do_free(items, e, n->Expr_0),
        Stmt::If(i) => {
            let i2 = n->If_0;
            lemma_expr_do_free(items, i.cond, i2.cond);
            assert(decreases_to!(o => i));
            assert(decreases_to!(i => i.then_block));
            assert(decreases_to!(i.then_block => i.then_block.stmts));
            assert(decreases_to!(i.then_block.stmts => i.then_block.stmts@));
            lemma_stmts_do_free(items, i.then_block.stmts@, i2.then_block.stmts@);
            match i.els {
                Some(b) => {
                    assert(decreases_to!(i => i.els));
                    assert(decreases_to!(i.els => b));
                    assert(decreases_to!(b => b.stmts));
                    assert(decreases_to!(b.stmts => b.stmts@));
                    lemma_stmts_do_free(items, b.stmts@, i2.els->0.stmts@);
                },
                None => {},
            }
        },
        Stmt::While(w) => {
            lemma_expr_do_free(items, w.cond, n->While_0.cond);
            assert(decreases_to!(o => w));
            assert(decreases_to!(w => w.body));
            assert(decreases_to!(w.body => w.body.stmts));
            assert(decreases_to!(w.body.stmts => w.body.stmts@));
            lemma_stmts_do_free(items, w.body.stmts@, n->While_0.body.stmts@);
        },
        Stmt::For(f) => {
            lemma_expr_do_free(items, f.iter, n->For_0.iter);
            assert(decreases_to!(o => f));
            assert(decreases_to!(f => f.body));
            assert(decreases_to!(f.body => f.body.stmts));
            assert(decreases_to!(f.body.stmts => f.body.stmts@));
            lemma_stmts_do_free(items, f.body.stmts@, n->For_0.body.stmts@);
        },
        Stmt::Match(m) => lemma_match_do_free(items, m, n->Match_0),
    }
}

proof fn lemma_stmts_do_free(items: Seq<Item>, o: Seq<Stmt>, n: Seq<Stmt>)
    requires
        stmts_desugared(items, o, n),
    ensures
        stmts_do_free(n),
    decreases o, 0int,
{
    assert forall|i: int| 0 <= i < n.len() implies stmt_do_free(#[trigger] n[i]) by {
        lemma_stmt_do_free(items, o[i], n[i]);
    }
}

proof fn lemma_match_do_free(items: Seq<Item>, o: Match, n: Match)
    requires
        match_desugared(items, o, n),
    ensures
        match_do_free(n),
    decreases o, 0int,
{
    lemma_expr_do_free(items, *o.scrut, *n.scrut);
    assert forall|i: int| 0 <= i < n.arms@.len() implies stmts_do_free(#[trigger] n.arms@[i].body.stmts@) by {
        assert(decreases_to!(o => o.arms));
        assert(decreases_to!(o.arms => o.arms@));
        assert(decreases_to!(o.arms@ => o.arms@[i]));
        assert(decreases_to!(o.arms@[i] => o.arms@[i].body));
        assert(decreases_to!(o.arms@[i].body => o.arms@[i].body.stmts));
        assert(decreases_to!(o.arms@[i].body.stmts => o.arms@[i].body.stmts@));
        lemma_stmts_do_free(items, o.arms@[i].body.stmts@, n.arms@[i].body.stmts@);
    }
}

/// Desugaring leaves no `do` block behind: whatever the item, its desugared
/// form has none in any function or method body.
pub proof fn law_desugared_is_do_free(items: Seq<Item>, o: Item, n: Item)
    requires
        item_desugared(items, o, n),
    ensures
        item_do_free(n),
{
    match o {
        Item::Func(f) => lemma_stmts_do_free(items, f.body.stmts@, n->Func_0.body.stmts@),
        Item::Impl(im) => {
            assert forall|k: int| 0 <= k < n->Impl_0.methods@.len() implies stmts_do_free(
                #[trigger] n->Impl_0.methods@[k].body.stmts@,
            ) by {
                lemma_stmts_do_free(items, im.methods@[k].body.stmts@, n->Impl_0.methods@[k].body.stmts@);
            }
        },
        _ => {},
    }
}

/// A function with its body desugared and all else kept.
pub open spec fn func_desugared(items: Seq<Item>, o: Func, n: Func) -> bool {
    &&& n.exported == o.exported
    &&& n.is_async == o.is_async
    &&& n.span == o.span
    &&& n.name == o.name
    &&& n.generics == o.generics
    &&& n.params == o.params
    &&& n.ret == o.ret
    &&& stmts_desugared(items, o.body.stmts@, n.body.stmts@)
}

/// An item with the bodies of its functions and methods desugared; a struct,
/// enum, interface or foreign block is kept as it is.
pub open spec fn item_desugared(items: Seq<Item>, o: Item, n: Item) -> bool {
    match o {
        Item::Func(f) => n is Func && func_desugared(items, f, n->Func_0),
        Item::Impl(im) => n is Impl && n->Impl_0.iface == im.iface && n->Impl_0.ty == im.ty
            && n->Impl_0.methods@.len() == im.methods@.len() && forall|k: int|
            0 <= k < im.methods@.len() ==> func_desugared(items, im.methods@[k], #[trigger] n->Impl_0.methods@[k]),
        _ => n == o,
    }
}

/// What the continuation lookup needs of one item: a function's name and the
/// continuation types it offers.
struct Sig {
    name: Option<String>,
    cont: Option<(Type, Type)>,
}

spec fn sig_ok(it: Item, s: Sig) -> bool {
    match it {
        Item::Func(f) => {
            &&& s.name is Some
            &&& s.name->0@ == f.name@
            &&& match func_cont(f) {
                Some(c) => s.cont matches Some(d) && tv(d.0) == c.0 && tv(d.1) == c.1,
                None => s.cont is None,
            }
        },
        _ => s.name is None,
    }
}

fn sig_of(it: &Item) -> (s: Sig)
    ensures
        sig_ok(*it, s),
{
    match it {
        Item::Func(f) => {
            let mut cont: Option<(Type, Type)> = None;
            if f.params.len() > 1 {
                match &f.params[1].ty {
                    Type::Func(ps, r) => {
                        let a = if ps.len() > 0 {
                            clone_type(&ps[0])
                        } else {
                            named("int64")
                        };
                        cont = Some((a, clone_type(r)));
                    },
                    _ => {},
                }
            }
            Sig { name: Some(f.name.clone()), cont }
        },
        _ => Sig { name: None, cont: None },
    }
}

/// A call of the named function on `args`, spanning `span`.
fn call(name: &String, args: Vec<Expr>, span: Span) -> (r: Expr)
    ensures
        is_named_call(r, name@, span),
        r.kind->Call_1@ == args@,
{
    let callee = Expr { kind: ExprKind::Ident(name.clone()), span };
    Expr { kind: ExprKind::Call(Box::new(callee), args), span }
}

struct Desugar {
    sigs: Vec<Sig>,
    items: Ghost<Seq<Item>>,
}

impl Desugar {
    spec fn wf(&self) -> bool {
        &&& self.sigs@.len() == self.items@.len()
        &&& forall|k: int| 0 <= k < self.sigs@.len() ==> sig_ok(self.items@[k], #[trigger] self.sigs@[k])
    }

    /// The continuation types for `bind_name`.
    fn cont_type(&self, bind_name: &String) -> (r: (Type, Type))
        requires
            self.wf(),
        ensures
            (tv(r.0), tv(r.1)) == cont_spec(self.items@, bind_name@, 0),
    {
        let key = chars_of(bind_name.as_str());
        let mut i: usize = 0;
        while i < self.sigs.len()
            invariant
                self.wf(),
                0 <= i <= self.sigs@.len(),
                key@ == bind_name@,
                cont_spec(self.items@, bind_name@, 0) == cont_spec(self.items@, bind_name@, i as int),
            decreases self.sigs.len() - i,
        {
            let s = &self.sigs[i];
            assert(sig_ok(self.items@[i as int], *s));
            match &s.name {
                Some(n) => {
                    let cur = chars_of(n.as_str());
                    if chars_eq(cur.as_slice(), key.as_slice()) {
                        match &s.cont {
                            Some(c) => {
                                return (clone_type(&c.0), clone_type(&c.1));
                            },
                            None => {},
                        }
                    }
                },
                None => {},
            }
            i = i + 1;
        }
        (named("int64"), named("int64"))
    }

    fn expr(&self, e: &mut Expr)
        requires
            self.wf(),
        ensures
            expr_desugared(self.items@, *old(e), *final(e)),
        decreases *old(e),
    {
        if let ExprKind::Do(_, _) = &e.kind {
            let mut k = ExprKind::Bool(false);
            std::mem::swap(&mut e.kind, &mut k);
            let span = e.span;
            match k {
                ExprKind::Do(monad, binds) => {
                    proof {
                        assert(decreases_to!(*old(e) => old(e).kind));
                        assert(decreases_to!(old(e).kind => binds));
                    }
                    *e = self.do_to_calls(monad, binds, span);
                },
                _ => {},
            }
            return;
        }
        match &mut e.kind {
            ExprKind::Unary(_, x) => self.expr(x),
            ExprKind::Binary(_, a, c) => {
                self.expr(a);
                self.expr(c);
            },
            ExprKind::Index(a, c) => {
                self.expr(a);
                self.expr(c);
            },
            ExprKind::Range(a, c, _) => {
                self.expr(a);
                self.expr(c);
            },
            ExprKind::Call(f, args) => {
                self.expr(f);
                self.exprs(args);
            },
            ExprKind::Field(x, _) => self.expr(x),
            ExprKind::Tuple(xs) => self.exprs(xs),
            ExprKind::Array(xs) => self.exprs(xs),
            ExprKind::StructLit(_, fs) => self.field_exprs(fs),
            ExprKind::Lambda(l) => self.block(&mut l.body),
            ExprKind::Match(m) => self.match_(m),
            _ => {},
        }
    }

    fn exprs(&self, v: &mut Vec<Expr>)
        requires
            self.wf(),
        ensures
            exprs_desugared(self.items@, old(v)@, final(v)@),
        decreases old(v)@,
    {
        let ghost o = v@;
        let mut i: usize = 0;
        while i < v.len()
            invariant
                self.wf(),
                0 <= i <= v@.len(),
                o == old(v)@,
                v@.len() == o.len(),
                forall|j: int| 0 <= j < i ==> expr_desugared(self.items@, o[j], #[trigger] v@[j]),
                forall|j: int| i <= j < v@.len() ==> #[trigger] v@[j] == o[j],
            decreases v.len() - i,
        {
            proof {
                assert(decreases_to!(o => o[i as int]));
            }
            self.expr(&mut v[i]);
            i = i + 1;
        }
    }

    fn field_exprs(&self, v: &mut Vec<(String, Expr)>)
        requires
            self.wf(),
        ensures
            old(v)@.len() == final(v)@.len(),
            forall|j: int|
                0 <= j < old(v)@.len() ==> (#[trigger] final(v)@[j]).0 == old(v)@[j].0 && expr_desugared(
                    self.items@,
                    old(v)@[j].1,
                    final(v)@[j].1,
                ),
        decreases old(v)@,
    {
        let ghost o = v@;
        let mut i: usize = 0;
        while i < v.len()
            invariant
                self.wf(),
                0 <= i <= v@.len(),
                o == old(v)@,
                v@.len() == o.len(),
                forall|j: int| 0 <= j < i ==> (#[trigger] v@[j]).0 == o[j].0 && expr_desugared(self.items@, o[j].1, v@[j].1),
                forall|j: int| i <= j < v@.len() ==> #[trigger] v@[j] == o[j],
            decreases v.len() - i,
        {
            proof {
                assert(decreases_to!(o => o[i as int]));
                assert(decreases_to!(o[i as int] => o[i as int].1));
            }
            self.expr(&mut v[i].1);
            i = i + 1;
        }
    }

    fn dobinds(&self, v: &mut Vec<DoBind>)
        requires
            self.wf(),
        ensures
            old(v)@.len() == final(v)@.len(),
            forall|j: int|
                0 <= j < old(v)@.len() ==> (#[trigger] final(v)@[j]).name == old(v)@[j].name && expr_desugared(
                    self.items@,
                    old(v)@[j].expr,
                    final(v)@[j].expr,
                ),
        decreases old(v)@,
    {
        let ghost o = v@;
        let mut i: usize = 0;
        while i < v.len()
            invariant
                self.wf(),
                0 <= i <= v@.len(),
                o == old(v)@,
                v@.len() == o.len(),
                forall|j: int| 0 <= j < i ==> (#[trigger] v@[j]).name == o[j].name && expr_desugared(self.items@, o[j].expr, v@[j].expr),
                forall|j: int| i <= j < v@.len() ==> #[trigger] v@[j] == o[j],
            decreases v.len() - i,
        {
            proof {
                assert(decreases_to!(o => o[i as int]));
                assert(decreases_to!(o[i as int] => o[i as int].expr));
            }
            self.expr(&mut v[i].expr);
            i = i + 1;
        }
    }

    /// Folds a `do` block's binds into nested `bind` calls, lifting the last
    /// expression with `unit`; earlier binds wrap later ones, so evaluation
    /// runs top to bottom.
    fn do_to_calls(&self, monad: Option<String>, binds: Vec<DoBind>, span: Span) -> (r: Expr)
        requires
            self.wf(),
        ensures
            do_desugared(self.items@, monad, binds@, span, r),
        decreases binds,
    {
        let ghost ob = binds@;
        let mut binds = binds;
        let mut bind_name = String::new();
        let mut unit_name = String::new();
        match &monad {
            Some(m) => {
                push_str(&mut bind_name, m.as_str());
                push_str(&mut bind_name, ".bind");
                push_str(&mut unit_name, m.as_str());
                push_str(&mut unit_name, ".unit");
            },
            None => {
                push_str(&mut bind_name, "bind");
                push_str(&mut unit_name, "unit");
            },
        }
        if binds.len() == 0 {
            let zero = Expr { kind: ExprKind::Int(0, None), span };
            let r = call(&unit_name, vec![zero], span);
            return r;
        }
        let cont = self.cont_type(&bind_name);
        proof {
            assert(decreases_to!(binds => binds@));
        }
        self.dobinds(&mut binds);
        let ghost db = binds@;
        let n = binds.len();
        let last = match binds.pop() {
            Some(b) => b,
            None => {
                return call(&unit_name, Vec::new(), span);
            },
        };
        assert(last == db[n - 1]);
        let mut acc = call(&unit_name, vec![last.expr], span);
        let mut i: usize = n - 1;
        while i > 0
            invariant
                self.wf(),
                n == ob.len(),
                db.len() == ob.len(),
                0 <= i < n,
                binds@ == db.take(i as int),
                forall|j: int|
                    0 <= j < n ==> (#[trigger] db[j]).name == ob[j].name && expr_desugared(self.items@, ob[j].expr, db[j].expr),
                (tv(cont.0), tv(cont.1)) == cont_spec(self.items@, bind_name@, 0),
                do_chain(self.items@, bind_name@, unit_name@, cont_spec(self.items@, bind_name@, 0), ob, i as int, span, acc),
            decreases i,
        {
            let b = match binds.pop() {
                Some(b) => b,
                None => {
                    return acc;
                },
            };
            i = i - 1;
            assert(b == db[i as int]);
            let pname = match b.name {
                Some(s) => s,
                None => {
                    let mut s = String::new();
                    push_str(&mut s, "$do");
                    push_dec(&mut s, i as u64);
                    s
                },
            };
            let param = Param { using: false, name: pname, ty: clone_type(&cont.0) };
            let lam = Lambda {
                params: vec![param],
                ret: clone_type(&cont.1),
                body: Block { stmts: vec![Stmt::Return(Some(acc))] },
            };
            let lam_expr = Expr { kind: ExprKind::Lambda(lam), span };
            acc = call(&bind_name, vec![b.expr, lam_expr], span);
            assert(binds@ =~= db.take(i as int));
        }
        acc
    }

    fn block(&self, b: &mut Block)
        requires
            self.wf(),
        ensures
            stmts_desugared(self.items@, old(b).stmts@, final(b).stmts@),
        decreases *old(b),
    {
        let ghost o = b.stmts@;
        let mut i: usize = 0;
        while i < b.stmts.len()
            invariant
                self.wf(),
                0 <= i <= b.stmts@.len(),
                o == old(b).stmts@,
                b.stmts@.len() == o.len(),
                forall|j: int| 0 <= j < i ==> stmt_desugared(self.items@, o[j], #[trigger] b.stmts@[j]),
                forall|j: int| i <= j < b.stmts@.len() ==> #[trigger] b.stmts@[j] == o[j],
            decreases b.stmts.len() - i,
        {
            proof {
                assert(decreases_to!(*old(b) => old(b).stmts));
                assert(decreases_to!(old(b).stmts => o[i as int]));
            }
            self.stmt(&mut b.stmts[i]);
            i = i + 1;
        }
    }

    fn stmt(&self, s: &mut Stmt)
        requires
            self.wf(),
        ensures
            stmt_desugared(self.items@, *old(s), *final(s)),
        decreases *old(s),
    {
        match s {
            Stmt::Let(l) => self.expr(&mut l.value),
            Stmt::Assign(a, c) => {
                self.expr(a);
                self.expr(c);
            },
            Stmt::AssignOp(_, a, c) => {
                self.expr(a);
                self.expr(c);
            },
            Stmt::Break(_) => {},
            Stmt::Continue(_) => {},
            Stmt::Return(Some(e)) => self.expr(e),
            Stmt::Return(None) => {},
            Stmt::Defer(e) => self.expr(e),
            Stmt::Expr(e) => self.expr(e),
            Stmt::If(i) => {
                self.expr(&mut i.cond);
                self.block(&mut i.then_block);
                match &mut i.els {
                    Some(e) => self.block(e),
                    None => {},
                }
            },
            Stmt::While(w) => {
                self.expr(&mut w.cond);
                self.block(&mut w.body);
            },
            Stmt::For(f) => {
                self.expr(&mut f.iter);
                self.block(&mut f.body);
            },
            Stmt::Match(m) => self.match_(m),
        }
    }

    fn match_(&self, m: &mut Match)
        requires
            self.wf(),
        ensures
            match_desugared(self.items@, *old(m), *final(m)),
        decreases *old(m),
    {
        self.expr(&mut m.scrut);
        let ghost o = m.arms@;
        let mut i: usize = 0;
        while i < m.arms.len()
            invariant
                self.wf(),
                0 <= i <= m.arms@.len(),
                o == old(m).arms@,
                m.arms@.len() == o.len(),
                expr_desugared(self.items@, *old(m).scrut, *m.scrut),
                forall|j: int|
                    0 <= j < i ==> pattern_same(o[j].pat, (#[trigger] m.arms@[j]).pat) && stmts_desugared(
                        self.items@,
                        o[j].body.stmts@,
                        m.arms@[j].body.stmts@,
                    ),
                forall|j: int| i <= j < m.arms@.len() ==> #[trigger] m.arms@[j] == o[j],
            decreases m.arms.len() - i,
        {
            proof {
                assert(decreases_to!(*old(m) => old(m).arms));
                assert(decreases_to!(old(m).arms => o[i as int]));
                assert(decreases_to!(o[i as int] => o[i as int].body));
            }
            self.block(&mut m.arms[i].body);
            i = i + 1;
        }
    }

    fn func(&self, f: &mut Func)
        requires
            self.wf(),
        ensures
            func_desugared(self.items@, *old(f), *final(f)),
    {
        self.block(&mut f.body);
    }

    fn item(&self, it: &mut Item)
        requires
            self.wf(),
        ensures
            item_desugared(self.items@, *old(it), *final(it)),
    {
        match it {
            Item::Func(f) => {
                self.func(f);
            },
            Item::Impl(im) => {
                let ghost o = im.methods@;
                let ghost iface = im.iface;
                let ghost ty = im.ty;
                let mut k: usize = 0;
                while k < im.methods.len()
                    invariant
                        self.wf(),
                        im.iface == iface,
                        im.ty == ty,
                        0 <= k <= im.methods@.len(),
                        im.methods@.len() == o.len(),
                        forall|j: int| 0 <= j < k ==> func_desugared(self.items@, o[j], #[trigger] im.methods@[j]),
                        forall|j: int| k <= j < im.methods@.len() ==> #[trigger] im.methods@[j] == o[j],
                    decreases im.methods.len() - k,
                {
                    self.func(&mut im.methods[k]);
                    k = k + 1;
                }
            },
            _ => {},
        }
    }
}

/// Rewrites a module, expanding all `do` blocks, and returns it.
pub fn run(module: Module) -> (r: Module)
    ensures
        r.paradigms@ == module.paradigms@,
        r.imports@ == module.imports@,
        r.monads@ == module.monads@,
        r.items@.len() == module.items@.len(),
        forall|k: int|
            0 <= k < module.items@.len() ==> item_desugared(module.items@, module.items@[k], #[trigger] r.items@[k]),
        forall|k: int| 0 <= k < r.items@.len() ==> item_do_free(#[trigger] r.items@[k]),
{
    let mut module = module;
    let ghost o = module.items@;
    let ghost p0 = module.paradigms@;
    let ghost i0 = module.imports@;
    let ghost n0 = module.monads@;
    let mut sigs: Vec<Sig> = Vec::new();
    let mut i: usize = 0;
    while i < module.items.len()
        invariant
            0 <= i <= module.items@.len(),
            module.items@ == o,
            sigs@.len() == i,
            forall|k: int| 0 <= k < i ==> sig_ok(o[k], #[trigger] sigs@[k]),
        decreases module.items.len() - i,
    {
        sigs.push(sig_of(&module.items[i]));
        i = i + 1;
    }
    let d = Desugar { sigs, items: Ghost(o) };
    let mut k: usize = 0;
    while k < module.items.len()
        invariant
            d.wf(),
            d.items@ == o,
            module.paradigms@ == p0,
            module.imports@ == i0,
            module.monads@ == n0,
            0 <= k <= module.items@.len(),
            module.items@.len() == o.len(),
            forall|j: int| 0 <= j < k ==> item_desugared(o, o[j], #[trigger] module.items@[j]),
            forall|j: int| k <= j < module.items@.len() ==> #[trigger] module.items@[j] == o[j],
        decreases module.items.len() - k,
    {
        d.item(&mut module.items[k]);
        k = k + 1;
    }
    proof {
        assert forall|k: int| 0 <= k < module.items@.len() implies item_do_free(#[trigger] module.items@[k]) by {
            law_desugared_is_do_free(o, o[k], module.items@[k]);
        }
    }
    module
}

} // verus!
