//! Private name isolation for imported modules.
//!
//! The loader merges every imported module's items into one flat program.
//! Before the merge, each imported module's non exported top level items are
//! renamed with a per file suffix and the references inside that module are
//! rewritten to match. A local binding, parameter, pattern binding, or generic
//! parameter shadows a renamed global, so uses of the local keep their name.

use vstd::prelude::*;
use crate::mono::name_set;
use crate::parser::ast::{
    bind_names, param_names, pattern_names, tv, tvs, Bind, Block, DoBind, Expr, ExprKind, Func, Item,
    Match, Module, Param, Stmt, Type, TypeV,
};
use crate::text::{chars_of, dec, push_all, push_dec, push_str, lemma_dec_digits, lemma_dec_injective};

verus! {

/// The index of the last `c` in `s`, or -1 when there is none.
pub open spec fn last_index_of(s: Seq<char>, c: char) -> int
    decreases s.len(),
{
    if s.len() == 0 {
        -1
    } else if s.last() == c {
        s.len() - 1
    } else {
        last_index_of(s.drop_last(), c)
    }
}

/// `last_index_of` is -1 or an index of `c`.
pub proof fn lemma_last_index(s: Seq<char>, c: char)
    ensures
        -1 <= last_index_of(s, c) < s.len(),
        last_index_of(s, c) >= 0 ==> s[last_index_of(s, c)] == c,
    decreases s.len(),
{
    if s.len() > 0 && s.last() != c {
        lemma_last_index(s.drop_last(), c);
    }
}

/// The last normal component of a `/`-separated path: trailing separators,
/// empty pieces and `.` pieces are passed over; None when nothing is left.
pub open spec fn last_component(p: Seq<char>) -> Option<Seq<char>>
    decreases p.len(),
{
    let j = last_index_of(p, '/');
    let seg = p.subrange(j + 1, p.len() as int);
    if seg.len() == 0 || seg == "."@ {
        if j < 0 {
            None
        } else {
            proof {
                lemma_last_index(p, '/');
            }
            last_component(p.subrange(0, j))
        }
    } else {
        Some(seg)
    }
}

/// The file name of a path: its last normal component, unless that is `..`.
pub open spec fn file_name_spec(p: Seq<char>) -> Option<Seq<char>> {
    match last_component(p) {
        Some(n) => if n == ".."@ { None } else { Some(n) },
        None => None,
    }
}

/// A file name without its extension: the text before the last `.`, unless
/// there is no `.` or the only place it splits is the leading one, in which
/// case the whole name.
pub open spec fn stem_of(name: Seq<char>) -> Seq<char> {
    let k = last_index_of(name, '.');
    if k <= 0 {
        name
    } else {
        name.subrange(0, k)
    }
}

/// The file stem of a path, as `Path::file_stem` gives it on a Unix target.
pub open spec fn path_stem_spec(p: Seq<char>) -> Option<Seq<char>> {
    match file_name_spec(p) {
        Some(n) => Some(stem_of(n)),
        None => None,
    }
}

/// The file name of `path` without its extension (`Path::file_stem`), when
/// the path has a file name. The contract states std's documented rules for
/// a Unix path: the last component after trailing `/` and `.` pieces, none
/// for an empty path, a root or `..`, the whole name for a dot file with no
/// other dot, else the text before the last `.`. A stem cut from a `&str` is
/// valid UTF-8, so the conversion back to a string always succeeds.
#[verifier::external_body]
fn file_stem(path: &str) -> (r: Option<String>)
    ensures
        match r {
            Some(s) => path_stem_spec(path@) == Some(s@),
            None => path_stem_spec(path@) is None,
        },
{
    std::path::Path::new(path).file_stem().and_then(|s| s.to_str()).map(|s| s.to_string())
}

/// ASCII letters and digits are kept in a suffix; anything else becomes `_`.
pub open spec fn clean_char(c: char) -> char {
    if ('0' <= c && c <= '9') || ('a' <= c && c <= 'z') || ('A' <= c && c <= 'Z') {
        c
    } else {
        '_'
    }
}

/// The suffix for a module whose file stem is `stem` at load position `index`.
pub open spec fn suffix_spec(stem: Option<Seq<char>>, index: nat) -> Seq<char> {
    let s = match stem {
        Some(s) => s,
        None => "mod"@,
    };
    Seq::new(s.len(), |i: int| clean_char(s[i])) + "_"@ + dec(index)
}

/// The suffix for a module from its file stem (or `mod` when the path has
/// none) and its position in the load order.
pub fn suffix_from_stem(stem: Option<&str>, index: usize) -> (r: String)
    ensures
        r@ == suffix_spec(
            match stem {
                Some(s) => Some(s@),
                None => None,
            },
            index as nat,
        ),
{
    let cs = match stem {
        Some(s) => chars_of(s),
        None => chars_of("mod"),
    };
    let mut clean: Vec<char> = Vec::new();
    let mut i: usize = 0;
    while i < cs.len()
        invariant
            0 <= i <= cs@.len(),
            clean@ == Seq::new(i as nat, |j: int| clean_char(cs@[j])),
        decreases cs.len() - i,
    {
        let c = cs[i];
        let k = if ('0' <= c && c <= '9') || ('a' <= c && c <= 'z') || ('A' <= c && c <= 'Z') {
            c
        } else {
            '_'
        };
        clean.push(k);
        i = i + 1;
        assert(clean@ =~= Seq::new(i as nat, |j: int| clean_char(cs@[j])));
    }
    let mut r = String::new();
    push_all(&mut r, clean.as_slice());
    push_str(&mut r, "_");
    push_dec(&mut r, index as u64);
    r
}

/// The load position is recovered from a suffix: modules at different
/// positions get different suffixes, whatever their file stems, and equal
/// suffixes also have equal cleaned stems.
pub proof fn law_suffix_keeps_positions_apart(s1: Option<Seq<char>>, i: nat, s2: Option<Seq<char>>, j: nat)
    requires
        suffix_spec(s1, i) == suffix_spec(s2, j),
    ensures
        i == j,
{
    reveal_strlit("_");
    lemma_dec_digits(i);
    lemma_dec_digits(j);
    let l = suffix_spec(s1, i);
    let d1 = dec(i);
    let d2 = dec(j);
    let n = l.len() as int;
    if d1.len() < d2.len() {
        let p = n - d1.len() - 1;
        assert(l[p] == '_');
        assert(l[p] == d2[p - (n - d2.len())]);
        assert(false);
    } else if d2.len() < d1.len() {
        let p = n - d2.len() - 1;
        assert(l[p] == '_');
        assert(l[p] == d1[p - (n - d1.len())]);
        assert(false);
    }
    assert(d1 =~= l.subrange(n - d1.len(), n));
    assert(d2 =~= l.subrange(n - d2.len(), n));
    lemma_dec_injective(i, j);
}

/// A filesystem safe suffix for a module, from its file stem and its position
/// in the load order. The index keeps two same named files from different
/// directories distinct.
pub fn suffix_for(path: &str, index: usize) -> (r: String)
    ensures
        r@ == suffix_spec(path_stem_spec(path@), index as nat),
{
    match file_stem(path) {
        Some(s) => suffix_from_stem(Some(s.as_str()), index),
        None => suffix_from_stem(None, index),
    }
}

/// The renaming of an imported module's private top level names.
pub struct Renamer {
    pub map: Vec<(String, String)>,
}

/// The first renaming entry for `n` among the first `i` entries.
pub open spec fn lookup(map: Seq<(String, String)>, n: Seq<char>, i: int) -> Option<Seq<char>>
    decreases i,
{
    if i <= 0 {
        None
    } else {
        match lookup(map, n, i - 1) {
            Some(r) => Some(r),
            None => if map[i - 1].0@ == n {
                Some(map[i - 1].1@)
            } else {
                None
            },
        }
    }
}

/// The name `x` becomes under the renaming: its first entry's new name, or
/// itself when no entry covers it.
pub open spec fn ren_name(map: Seq<(String, String)>, x: Seq<char>) -> Seq<char> {
    match lookup(map, x, map.len() as int) {
        Some(y) => y,
        None => x,
    }
}

/// `t` with every named type renamed by `ren`, except names in `skip` (the
/// generic parameters in scope).
pub open spec fn rename_spec(ren: spec_fn(Seq<char>) -> Seq<char>, t: TypeV, skip: Set<Seq<char>>) -> TypeV
    decreases t,
{
    match t {
        TypeV::Named(n, args) => TypeV::Named(
            if !skip.contains(n) {
                ren(n)
            } else {
                n
            },
            rename_seq(ren, args, skip),
        ),
        TypeV::Ptr(b) => TypeV::Ptr(Box::new(rename_spec(ren, *b, skip))),
        TypeV::RawPtr(b) => TypeV::RawPtr(Box::new(rename_spec(ren, *b, skip))),
        TypeV::Slice(b) => TypeV::Slice(Box::new(rename_spec(ren, *b, skip))),
        TypeV::Array(b, n) => TypeV::Array(Box::new(rename_spec(ren, *b, skip)), n),
        TypeV::Tuple(xs) => TypeV::Tuple(rename_seq(ren, xs, skip)),
        TypeV::Func(ps, r) => TypeV::Func(rename_seq(ren, ps, skip), Box::new(rename_spec(ren, *r, skip))),
        TypeV::Unit => TypeV::Unit,
    }
}

pub open spec fn rename_seq(ren: spec_fn(Seq<char>) -> Seq<char>, xs: Seq<TypeV>, skip: Set<Seq<char>>) -> Seq<TypeV>
    decreases xs,
{
    Seq::new(xs.len(), |i: int| if 0 <= i < xs.len() { rename_spec(ren, xs[i], skip) } else { TypeV::Unit })
}

impl Renamer {
    /// The renaming as a function on names.
    pub open spec fn ren(&self) -> spec_fn(Seq<char>) -> Seq<char> {
        |x: Seq<char>| ren_name(self.map@, x)
    }

    /// The new name for `n`, if it is renamed.
    pub fn renamed(&self, n: &str) -> (r: Option<String>)
        ensures
            match r {
                Some(s) => lookup(self.map@, n@, self.map@.len() as int) == Some(s@),
                None => lookup(self.map@, n@, self.map@.len() as int) is None,
            },
    {
        let key = chars_of(n);
        let mut i: usize = 0;
        while i < self.map.len()
            invariant
                0 <= i <= self.map@.len(),
                key@ == n@,
                lookup(self.map@, n@, i as int) is None,
            decreases self.map.len() - i,
        {
            let cur = chars_of(self.map[i].0.as_str());
            if crate::text::chars_eq(cur.as_slice(), key.as_slice()) {
                proof {
                    lemma_lookup_found(self.map@, n@, (i + 1) as int, self.map@.len() as int);
                }
                return Some(self.map[i].1.clone());
            }
            i = i + 1;
        }
        None
    }

    /// Renames the named types inside `t`, leaving generic parameters in
    /// `skip` and every name the renaming does not cover alone.
    pub fn ty(&self, t: &mut Type, skip: &[String])
        ensures
            tv(*final(t)) == rename_spec(self.ren(), tv(*old(t)), name_set(skip@)),
    {
        let r = self.ty_of(t, skip);
        *t = r;
    }

    fn ty_of(&self, t: &Type, skip: &[String]) -> (r: Type)
        ensures
            tv(r) == rename_spec(self.ren(), tv(*t), name_set(skip@)),
        decreases t,
    {
        match t {
            Type::Named(n, args) => {
                assert(tv(*t) == TypeV::Named(n@, tvs(args@)));
                let keep = crate::mono::contains_name(skip, n);
                let nn = if keep {
                    n.clone()
                } else {
                    match self.renamed(n.as_str()) {
                        Some(x) => x,
                        None => n.clone(),
                    }
                };
                Type::Named(nn, self.ty_all(args, skip))
            },
            Type::Ptr(b) => Type::Ptr(Box::new(self.ty_of(b, skip))),
            Type::RawPtr(b) => Type::RawPtr(Box::new(self.ty_of(b, skip))),
            Type::Slice(b) => Type::Slice(Box::new(self.ty_of(b, skip))),
            Type::Array(b, n) => Type::Array(Box::new(self.ty_of(b, skip)), *n),
            Type::Tuple(xs) => {
                assert(tv(*t) == TypeV::Tuple(tvs(xs@)));
                Type::Tuple(self.ty_all(xs, skip))
            },
            Type::Func(ps, r) => {
                assert(tv(*t) == TypeV::Func(tvs(ps@), Box::new(tv(**r))));
                Type::Func(self.ty_all(ps, skip), Box::new(self.ty_of(r, skip)))
            },
            Type::Unit => Type::Unit,
        }
    }

    fn ty_all(&self, xs: &Vec<Type>, skip: &[String]) -> (r: Vec<Type>)
        ensures
            tvs(r@) == rename_seq(self.ren(), tvs(xs@), name_set(skip@)),
        decreases xs,
    {
        let mut out: Vec<Type> = Vec::new();
        let mut i: usize = 0;
        while i < xs.len()
            invariant
                0 <= i <= xs@.len(),
                out@.len() == i,
                forall|j: int| 0 <= j < i ==> tv(#[trigger] out@[j]) == rename_spec(self.ren(), tv(xs@[j]), name_set(skip@)),
            decreases xs.len() - i,
        {
            proof {
                assert(decreases_to!(xs => xs@[i as int]));
            }
            out.push(self.ty_of(&xs[i], skip));
            i = i + 1;
        }
        assert(tvs(out@) =~= rename_seq(self.ren(), tvs(xs@), name_set(skip@)));
        out
    }

    /// Whether `n` is bound in any enclosing scope.
    pub fn is_bound(&self, n: &str, bound: &[Vec<String>]) -> (r: bool)
        ensures
            r == exists|i: int| 0 <= i < bound@.len() && name_set((#[trigger] bound@[i])@).contains(n@),
    {
        let key = chars_of(n);
        let s = crate::text::string_of(key.as_slice());
        let mut i: usize = 0;
        while i < bound.len()
            invariant
                0 <= i <= bound@.len(),
                s@ == n@,
                forall|j: int| 0 <= j < i ==> !name_set((#[trigger] bound@[j])@).contains(n@),
            decreases bound.len() - i,
        {
            if crate::mono::contains_name(bound[i].as_slice(), &s) {
                return true;
            }
            i = i + 1;
        }
        false
    }
}

proof fn lemma_lookup_found(map: Seq<(String, String)>, n: Seq<char>, i: int, j: int)
    requires
        0 < i <= j <= map.len(),
        lookup(map, n, i - 1) is None,
        map[i - 1].0@ == n,
    ensures
        lookup(map, n, j) == Some(map[i - 1].1@),
    decreases j,
{
    if j > i {
        lemma_lookup_found(map, n, i, j - 1);
    }
}


// Reference rewriting is scope aware. `bound` is the set of names the
// enclosing scopes bind at a point; an identifier bound there keeps its name.

pub open spec fn ty_renamed(ren: spec_fn(Seq<char>) -> Seq<char>, o: Type, n: Type, skip: Set<Seq<char>>) -> bool {
    tv(n) == rename_spec(ren, tv(o), skip)
}

/// Parameters keep their names and flags; their types are renamed.
pub open spec fn params_renamed(ren: spec_fn(Seq<char>) -> Seq<char>, o: Seq<Param>, n: Seq<Param>, skip: Set<Seq<char>>) -> bool {
    o.len() == n.len() && forall|i: int|
        0 <= i < o.len() ==> (#[trigger] n[i]).using == o[i].using && n[i].name == o[i].name && ty_renamed(
            ren,
            o[i].ty,
            n[i].ty,
            skip,
        )
}

pub open spec fn binds_renamed(ren: spec_fn(Seq<char>) -> Seq<char>, o: Seq<Bind>, n: Seq<Bind>, skip: Set<Seq<char>>) -> bool {
    o.len() == n.len() && forall|i: int|
        0 <= i < o.len() ==> (#[trigger] n[i]).name == o[i].name && match o[i].ty {
            Some(t) => n[i].ty matches Some(t2) && ty_renamed(ren, t, t2, skip),
            None => n[i].ty is None,
        }
}

/// The names the binds of a `do` block introduce.
pub open spec fn do_names(binds: Seq<DoBind>) -> Set<Seq<char>> {
    Set::new(|x: Seq<char>| exists|i: int| 0 <= i < binds.len() && ((#[trigger] binds[i]).name matches Some(s) && s@ == x))
}

/// The names the `let` statements among the first `i` statements bind.
pub open spec fn let_names(stmts: Seq<Stmt>, i: int) -> Set<Seq<char>> {
    Set::new(
        |x: Seq<char>|
            exists|k: int| 0 <= k < i && ((#[trigger] stmts[k]) matches Stmt::Let(l) && bind_names(l.binds@).contains(x)),
    )
}

/// The names a statement binds into its enclosing block's scope.
pub open spec fn stmt_lets(s: Stmt) -> Set<Seq<char>> {
    match s {
        Stmt::Let(l) => bind_names(l.binds@),
        _ => Set::empty(),
    }
}

/// `n` is `o` with every reference renamed: an identifier not bound in scope,
/// a struct literal's type name, and every named type outside `skip`.
pub open spec fn expr_renamed(
    ren: spec_fn(Seq<char>) -> Seq<char>,
    o: Expr,
    n: Expr,
    skip: Set<Seq<char>>,
    bound: Set<Seq<char>>,
) -> bool
    decreases o, 0int,
{
    n.span == o.span && match o.kind {
        ExprKind::Ident(x) => n.kind matches ExprKind::Ident(y) && y@ == (if bound.contains(x@) {
            x@
        } else {
            ren(x@)
        }),
        ExprKind::Unary(op, x) => n.kind matches ExprKind::Unary(op2, y) && op2 == op && expr_renamed(ren, *x, *y, skip, bound),
        ExprKind::Binary(op, a, b) => n.kind matches ExprKind::Binary(op2, c, d) && op2 == op && expr_renamed(ren, *a, *c, skip, bound)
            && expr_renamed(ren, *b, *d, skip, bound),
        ExprKind::Index(a, b) => n.kind matches ExprKind::Index(c, d) && expr_renamed(ren, *a, *c, skip, bound)
            && expr_renamed(ren, *b, *d, skip, bound),
        ExprKind::Range(a, b, incl) => n.kind matches ExprKind::Range(c, d, incl2) && incl2 == incl && expr_renamed(ren, *a, *c, skip, bound)
            && expr_renamed(ren, *b, *d, skip, bound),
        ExprKind::Call(f, args) => n.kind matches ExprKind::Call(g, args2) && expr_renamed(ren, *f, *g, skip, bound)
            && exprs_renamed(ren, args@, args2@, skip, bound),
        ExprKind::Field(x, name) => n.kind matches ExprKind::Field(y, name2) && name2 == name && expr_renamed(ren, *x, *y, skip, bound),
        ExprKind::Tuple(xs) => n.kind matches ExprKind::Tuple(ys) && exprs_renamed(ren, xs@, ys@, skip, bound),
        ExprKind::Array(xs) => n.kind matches ExprKind::Array(ys) && exprs_renamed(ren, xs@, ys@, skip, bound),
        ExprKind::StructLit(name, fs) => n.kind matches ExprKind::StructLit(name2, gs) && name2@ == ren(name@)
            && fs@.len() == gs@.len() && forall|i: int|
            0 <= i < fs@.len() ==> (#[trigger] gs@[i]).0 == fs@[i].0 && expr_renamed(ren, fs@[i].1, gs@[i].1, skip, bound),
        ExprKind::Lambda(l) => n.kind matches ExprKind::Lambda(l2) && params_renamed(ren, l.params@, l2.params@, skip)
            && ty_renamed(ren, l.ret, l2.ret, skip) && stmts_renamed(
            ren,
            l.body.stmts@,
            l2.body.stmts@,
            skip,
            bound.union(param_names(l.params@)),
        ),
        ExprKind::Match(m) => n.kind matches ExprKind::Match(m2) && match_renamed(ren, *m, *m2, skip, bound),
        ExprKind::Do(name, binds) => n.kind matches ExprKind::Do(name2, binds2) && name2 == name && binds@.len()
            == binds2@.len() && forall|i: int|
            0 <= i < binds@.len() ==> (#[trigger] binds2@[i]).name == binds@[i].name && expr_renamed(
                ren,
                binds@[i].expr,
                binds2@[i].expr,
                skip,
                bound.union(do_names(binds@)),
            ),
        ExprKind::SizeofType(t) => n.kind matches ExprKind::SizeofType(t2) && ty_renamed(ren, t, t2, skip),
        _ => n.kind == o.kind,
    }
}

pub open spec fn exprs_renamed(
    ren: spec_fn(Seq<char>) -> Seq<char>,
    o: Seq<Expr>,
    n: Seq<Expr>,
    skip: Set<Seq<char>>,
    bound: Set<Seq<char>>,
) -> bool
    decreases o, 0int,
{
    o.len() == n.len() && forall|i: int| 0 <= i < o.len() ==> expr_renamed(ren, o[i], #[trigger] n[i], skip, bound)
}

pub open spec fn stmt_renamed(
    ren: spec_fn(Seq<char>) -> Seq<char>,
    o: Stmt,
    n: Stmt,
    skip: Set<Seq<char>>,
    bound: Set<Seq<char>>,
) -> bool
    decreases o, 0int,
{
    match o {
        Stmt::Let(l) => n matches Stmt::Let(l2) && l2.mutable == l.mutable && l2.is_ref == l.is_ref && l2.infer
            == l.infer && binds_renamed(ren, l.binds@, l2.binds@, skip) && expr_renamed(ren, l.value, l2.value, skip, bound),
        Stmt::Assign(a, b) => n matches Stmt::Assign(c, d) && expr_renamed(ren, a, c, skip, bound) && expr_renamed(
            ren,
            b,
            d,
            skip,
            bound,
        ),
        Stmt::AssignOp(op, a, b) => n matches Stmt::AssignOp(op2, c, d) && op2 == op && expr_renamed(ren, a, c, skip, bound)
            && expr_renamed(ren, b, d, skip, bound),
        Stmt::Break(_) => n == o,
        Stmt::Continue(_) => n == o,
        Stmt::Return(Some(e)) => n matches Stmt::Return(Some(e2)) && expr_renamed(ren, e, e2, skip, bound),
        Stmt::Return(None) => n == o,
        Stmt::Defer(e) => n matches Stmt::Defer(e2) && expr_renamed(ren, e, e2, skip, bound),
        Stmt::Expr(e) => n matches Stmt::Expr(e2) && expr_renamed(ren, e, e2, skip, bound),
        Stmt::If(i) => n matches Stmt::If(i2) && expr_renamed(ren, i.cond, i2.cond, skip, bound) && stmts_renamed(
            ren,
            i.then_block.stmts@,
            i2.then_block.stmts@,
            skip,
            bound,
        ) && match i.els {
            Some(b) => i2.els matches Some(b2) && stmts_renamed(ren, b.stmts@, b2.stmts@, skip, bound),
            None => i2.els is None,
        },
        Stmt::While(w) => n matches Stmt::While(w2) && w2.post_test == w.post_test && expr_renamed(ren, w.cond, w2.cond, skip, bound)
            && stmts_renamed(ren, w.body.stmts@, w2.body.stmts@, skip, bound),
        Stmt::For(f) => n matches Stmt::For(f2) && f2.var == f.var && expr_renamed(ren, f.iter, f2.iter, skip, bound)
            && stmts_renamed(ren, f.body.stmts@, f2.body.stmts@, skip, bound.insert(f.var@)),
        Stmt::Match(m) => n matches Stmt::Match(m2) && match_renamed(ren, m, m2, skip, bound),
    }
}

/// Each statement of a block is renamed under the enclosing scopes plus the
/// names the block's earlier `let` statements bound.
pub open spec fn stmts_renamed(
    ren: spec_fn(Seq<char>) -> Seq<char>,
    o: Seq<Stmt>,
    n: Seq<Stmt>,
    skip: Set<Seq<char>>,
    bound: Set<Seq<char>>,
) -> bool
    decreases o, 0int,
{
    o.len() == n.len() && forall|i: int|
        0 <= i < o.len() ==> stmt_renamed(ren, o[i], #[trigger] n[i], skip, bound.union(let_names(o, i)))
}

pub open spec fn match_renamed(
    ren: spec_fn(Seq<char>) -> Seq<char>,
    o: Match,
    n: Match,
    skip: Set<Seq<char>>,
    bound: Set<Seq<char>>,
) -> bool
    decreases o, 0int,
{
    expr_renamed(ren, *o.scrut, *n.scrut, skip, bound) && o.arms@.len() == n.arms@.len() && forall|i: int|
        0 <= i < o.arms@.len() ==> (#[trigger] n.arms@[i]).pat == o.arms@[i].pat && stmts_renamed(
            ren,
            o.arms@[i].body.stmts@,
            n.arms@[i].body.stmts@,
            skip,
            bound.union(pattern_names(o.arms@[i].pat)),
        )
}

/// A function's signature and body renamed, its generic parameters skipped and
/// its parameters bound in the body. The function's own name is the caller's.
pub open spec fn func_renamed(ren: spec_fn(Seq<char>) -> Seq<char>, f: Func, g: Func) -> bool {
    let skip = name_set(f.generics@);
    &&& g.exported == f.exported
    &&& g.is_async == f.is_async
    &&& g.span == f.span
    &&& g.generics == f.generics
    &&& params_renamed(ren, f.params@, g.params@, skip)
    &&& ty_renamed(ren, f.ret, g.ret, skip)
    &&& stmts_renamed(ren, f.body.stmts@, g.body.stmts@, skip, param_names(f.params@))
}

pub open spec fn fields_renamed(
    ren: spec_fn(Seq<char>) -> Seq<char>,
    o: Seq<crate::parser::ast::Field>,
    n: Seq<crate::parser::ast::Field>,
    skip: Set<Seq<char>>,
) -> bool {
    o.len() == n.len() && forall|i: int|
        0 <= i < o.len() ==> (#[trigger] n[i]).name == o[i].name && ty_renamed(ren, o[i].ty, n[i].ty, skip)
}

/// `n` is the item `o` renamed: a top level name by `ren`, the types and
/// references inside it, and an impl's type and interface names. Foreign
/// functions bind to C symbols by name and are never renamed.
pub open spec fn item_renamed(ren: spec_fn(Seq<char>) -> Seq<char>, o: Item, n: Item) -> bool {
    match o {
        Item::Func(f) => n matches Item::Func(g) && g.name@ == ren(f.name@) && func_renamed(ren, f, g),
        Item::Struct(s) => n matches Item::Struct(s2) && s2.exported == s.exported && s2.generics == s.generics
            && s2.name@ == ren(s.name@) && fields_renamed(ren, s.fields@, s2.fields@, name_set(s.generics@)),
        Item::Enum(e) => n matches Item::Enum(e2) && e2.exported == e.exported && e2.generics == e.generics
            && e2.name@ == ren(e.name@) && e.variants@.len() == e2.variants@.len() && forall|k: int|
            0 <= k < e.variants@.len() ==> (#[trigger] e2.variants@[k]).name == e.variants@[k].name && fields_renamed(
                ren,
                e.variants@[k].fields@,
                e2.variants@[k].fields@,
                name_set(e.generics@),
            ),
        Item::Interface(d) => n matches Item::Interface(d2) && d2.exported == d.exported && d2.generics == d.generics
            && d2.name@ == ren(d.name@) && d.methods@.len() == d2.methods@.len() && forall|k: int|
            0 <= k < d.methods@.len() ==> (#[trigger] d2.methods@[k]).name == d.methods@[k].name && params_renamed(
                ren,
                d.methods@[k].params@,
                d2.methods@[k].params@,
                name_set(d.generics@),
            ) && ty_renamed(ren, d.methods@[k].ret, d2.methods@[k].ret, name_set(d.generics@)),
        Item::Impl(im) => n matches Item::Impl(im2) && im2.ty@ == ren(im.ty@) && match im.iface {
            Some(x) => im2.iface matches Some(y) && y@ == ren(x@),
            None => im2.iface is None,
        } && im.methods@.len() == im2.methods@.len() && forall|k: int|
            0 <= k < im.methods@.len() ==> (#[trigger] im2.methods@[k]).name == im.methods@[k].name && func_renamed(
                ren,
                im.methods@[k],
                im2.methods@[k],
            ),
        Item::Foreign(_) => n == o,
    }
}


/// The names any scope of a scope stack binds.
pub open spec fn bound_set(b: Seq<Vec<String>>) -> Set<Seq<char>> {
    Set::new(|x: Seq<char>| exists|i: int| 0 <= i < b.len() && name_set((#[trigger] b[i])@).contains(x))
}

proof fn lemma_bound_push(b: Seq<Vec<String>>, v: Vec<String>)
    ensures
        bound_set(b.push(v)) == bound_set(b).union(name_set(v@)),
{
    assert forall|x: Seq<char>| #[trigger] bound_set(b.push(v)).contains(x) implies bound_set(b).union(name_set(v@)).contains(x) by {
        let i = choose|i: int| 0 <= i < b.push(v).len() && name_set((#[trigger] b.push(v)[i])@).contains(x);
        if i < b.len() {
            assert(b.push(v)[i] == b[i]);
        }
    }
    assert forall|x: Seq<char>| #[trigger] bound_set(b).union(name_set(v@)).contains(x) implies bound_set(b.push(v)).contains(x) by {
        if bound_set(b).contains(x) {
            let i = choose|i: int| 0 <= i < b.len() && name_set((#[trigger] b[i])@).contains(x);
            assert(b.push(v)[i] == b[i]);
        } else {
            assert(b.push(v)[b.len() as int] == v);
        }
    }
    assert(bound_set(b.push(v)) =~= bound_set(b).union(name_set(v@)));
}

proof fn lemma_bound_add(b: Seq<Vec<String>>, k: int, v: Vec<String>, x: Seq<char>)
    requires
        0 <= k < b.len(),
        name_set(v@) == name_set(b[k]@).insert(x),
    ensures
        bound_set(b.update(k, v)) == bound_set(b).insert(x),
{
    assert forall|y: Seq<char>| #[trigger] bound_set(b.update(k, v)).contains(y) implies bound_set(b).insert(x).contains(y) by {
        let i = choose|i: int| 0 <= i < b.len() && name_set((#[trigger] b.update(k, v)[i])@).contains(y);
        if i != k {
            assert(b.update(k, v)[i] == b[i]);
        } else if y != x {
            assert(name_set(b[k]@).contains(y));
        }
    }
    assert forall|y: Seq<char>| #[trigger] bound_set(b).insert(x).contains(y) implies bound_set(b.update(k, v)).contains(y) by {
        if y == x {
            assert(b.update(k, v)[k] == v);
            assert(name_set(v@).contains(y));
        } else {
            let i = choose|i: int| 0 <= i < b.len() && name_set((#[trigger] b[i])@).contains(y);
            if i != k {
                assert(b.update(k, v)[i] == b[i]);
            } else {
                assert(b.update(k, v)[k] == v);
                assert(name_set(v@).contains(y));
            }
        }
    }
    assert(bound_set(b.update(k, v)) =~= bound_set(b).insert(x));
}

proof fn lemma_name_set_push(v: Seq<String>, s: String)
    ensures
        name_set(v.push(s)) == name_set(v).insert(s@),
{
    assert forall|x: Seq<char>| #[trigger] name_set(v.push(s)).contains(x) implies name_set(v).insert(s@).contains(x) by {
        let j = choose|j: int| 0 <= j < v.push(s).len() && (#[trigger] v.push(s)[j])@ == x;
        if j < v.len() {
            assert(v.push(s)[j] == v[j]);
        }
    }
    assert forall|x: Seq<char>| #[trigger] name_set(v).insert(s@).contains(x) implies name_set(v.push(s)).contains(x) by {
        if x == s@ {
            assert(v.push(s)[v.len() as int] == s);
        } else {
            let j = choose|j: int| 0 <= j < v.len() && (#[trigger] v[j])@ == x;
            assert(v.push(s)[j] == v[j]);
        }
    }
    assert(name_set(v.push(s)) =~= name_set(v).insert(s@));
}

impl Renamer {
    /// Adds a name to the innermost scope.
    fn bind(&self, bound: &mut Vec<Vec<String>>, n: &String)
        requires
            old(bound)@.len() >= 1,
        ensures
            final(bound)@.len() == old(bound)@.len(),
            forall|k: int| 0 <= k < old(bound)@.len() - 1 ==> #[trigger] final(bound)@[k] == old(bound)@[k],
            bound_set(final(bound)@) == bound_set(old(bound)@).insert(n@),
    {
        let k = bound.len() - 1;
        let ghost b0 = bound@;
        let ghost v0 = bound@[k as int];
        bound[k].push(n.clone());
        proof {
            lemma_name_set_push(v0@, *n);
            assert(bound@ == b0.update(k as int, bound@[k as int]));
            lemma_bound_add(b0, k as int, bound@[k as int], n@);
        }
    }

    fn params(&self, ps: &mut Vec<Param>, skip: &[String])
        ensures
            params_renamed(self.ren(), old(ps)@, final(ps)@, name_set(skip@)),
    {
        let ghost o = ps@;
        let mut i: usize = 0;
        while i < ps.len()
            invariant
                0 <= i <= ps@.len(),
                o == old(ps)@,
                ps@.len() == o.len(),
                forall|j: int| 0 <= j < i ==> (#[trigger] ps@[j]).using == o[j].using && ps@[j].name == o[j].name && ty_renamed(self.ren(), o[j].ty, ps@[j].ty, name_set(skip@)),
                forall|j: int| i <= j < ps@.len() ==> #[trigger] ps@[j] == o[j],
            decreases ps.len() - i,
        {
            self.ty(&mut ps[i].ty, skip);
            i = i + 1;
        }
    }

    fn binds(&self, bs: &mut Vec<Bind>, skip: &[String])
        ensures
            binds_renamed(self.ren(), old(bs)@, final(bs)@, name_set(skip@)),
    {
        let ghost o = bs@;
        let mut i: usize = 0;
        while i < bs.len()
            invariant
                0 <= i <= bs@.len(),
                o == old(bs)@,
                bs@.len() == o.len(),
                forall|j: int| 0 <= j < i ==> (#[trigger] bs@[j]).name == o[j].name && match o[j].ty {
                    Some(t) => bs@[j].ty matches Some(t2) && ty_renamed(self.ren(), t, t2, name_set(skip@)),
                    None => bs@[j].ty is None,
                },
                forall|j: int| i <= j < bs@.len() ==> #[trigger] bs@[j] == o[j],
            decreases bs.len() - i,
        {
            match &mut bs[i].ty {
                Some(t) => self.ty(t, skip),
                None => {},
            }
            i = i + 1;
        }
    }

    fn fields(&self, fs: &mut Vec<crate::parser::ast::Field>, skip: &[String])
        ensures
            fields_renamed(self.ren(), old(fs)@, final(fs)@, name_set(skip@)),
    {
        let ghost o = fs@;
        let mut i: usize = 0;
        while i < fs.len()
            invariant
                0 <= i <= fs@.len(),
                o == old(fs)@,
                fs@.len() == o.len(),
                forall|j: int| 0 <= j < i ==> (#[trigger] fs@[j]).name == o[j].name && ty_renamed(self.ren(), o[j].ty, fs@[j].ty, name_set(skip@)),
                forall|j: int| i <= j < fs@.len() ==> #[trigger] fs@[j] == o[j],
            decreases fs.len() - i,
        {
            self.ty(&mut fs[i].ty, skip);
            i = i + 1;
        }
    }
}


proof fn lemma_let_names_step(o: Seq<Stmt>, i: int)
    requires
        0 <= i < o.len(),
    ensures
        let_names(o, i + 1) == let_names(o, i).union(stmt_lets(o[i])),
{
    assert forall|x: Seq<char>| #[trigger] let_names(o, i + 1).contains(x) implies let_names(o, i).union(stmt_lets(o[i])).contains(x) by {
        let k = choose|k: int| 0 <= k < i + 1 && ((#[trigger] o[k]) matches Stmt::Let(l) && bind_names(l.binds@).contains(x));
        if k < i {
            assert(let_names(o, i).contains(x));
        }
    }
    assert forall|x: Seq<char>| #[trigger] let_names(o, i).union(stmt_lets(o[i])).contains(x) implies let_names(o, i + 1).contains(x) by {
        if let_names(o, i).contains(x) {
            let k = choose|k: int| 0 <= k < i && ((#[trigger] o[k]) matches Stmt::Let(l) && bind_names(l.binds@).contains(x));
            assert(0 <= k < i + 1);
        } else {
            assert(o[i] matches Stmt::Let(l) && bind_names(l.binds@).contains(x));
        }
    }
    assert(let_names(o, i + 1) =~= let_names(o, i).union(stmt_lets(o[i])));
}

/// The names of a parameter list, as a scope.
fn param_scope(ps: &Vec<Param>) -> (v: Vec<String>)
    ensures
        name_set(v@) == param_names(ps@),
{
    let mut v: Vec<String> = Vec::new();
    let mut i: usize = 0;
    while i < ps.len()
        invariant
            0 <= i <= ps@.len(),
            v@.len() == i,
            forall|j: int| 0 <= j < i ==> (#[trigger] v@[j])@ == ps@[j].name@,
        decreases ps.len() - i,
    {
        v.push(ps[i].name.clone());
        i = i + 1;
    }
    assert forall|x: Seq<char>| #[trigger] name_set(v@).contains(x) implies param_names(ps@).contains(x) by {
        let j = choose|j: int| 0 <= j < v@.len() && (#[trigger] v@[j])@ == x;
        assert(ps@[j].name@ == x);
    }
    assert forall|x: Seq<char>| #[trigger] param_names(ps@).contains(x) implies name_set(v@).contains(x) by {
        let j = choose|j: int| 0 <= j < ps@.len() && (#[trigger] ps@[j]).name@ == x;
        assert(v@[j]@ == x);
    }
    assert(name_set(v@) =~= param_names(ps@));
    v
}

/// The names the binds of a `do` block introduce, as a scope.
fn do_scope(binds: &Vec<DoBind>) -> (v: Vec<String>)
    ensures
        name_set(v@) == do_names(binds@),
{
    let mut v: Vec<String> = Vec::new();
    let mut i: usize = 0;
    while i < binds.len()
        invariant
            0 <= i <= binds@.len(),
            name_set(v@) == Set::new(|x: Seq<char>| exists|j: int| 0 <= j < i && ((#[trigger] binds@[j]).name matches Some(s) && s@ == x)),
        decreases binds.len() - i,
    {
        let ghost before = v@;
        match &binds[i].name {
            Some(s) => {
                v.push(s.clone());
                proof {
                    lemma_name_set_push(before, *s);
                }
            },
            None => {},
        }
        assert(name_set(v@) =~= Set::new(|x: Seq<char>| exists|j: int| 0 <= j < i + 1 && ((#[trigger] binds@[j]).name matches Some(s) && s@ == x))) by {
            assert forall|x: Seq<char>| #[trigger] name_set(v@).contains(x) implies Set::new(|x: Seq<char>| exists|j: int| 0 <= j < i + 1 && ((#[trigger] binds@[j]).name matches Some(s) && s@ == x)).contains(x) by {
                if !name_set(before).contains(x) {
                    assert(binds@[i as int].name matches Some(s) && s@ == x);
                }
            }
        }
        i = i + 1;
    }
    assert(name_set(v@) =~= do_names(binds@));
    v
}

/// The names a pattern binds, as a scope.
fn pattern_scope(p: &crate::parser::ast::Pattern) -> (v: Vec<String>)
    ensures
        name_set(v@) == pattern_names(*p),
{
    match p {
        crate::parser::ast::Pattern::Variant(_, binds) => {
            let mut v: Vec<String> = Vec::new();
            let mut i: usize = 0;
            while i < binds.len()
                invariant
                    0 <= i <= binds@.len(),
                    v@.len() == i,
                    forall|j: int| 0 <= j < i ==> #[trigger] v@[j] == binds@[j],
                decreases binds.len() - i,
            {
                v.push(binds[i].clone());
                i = i + 1;
            }
            assert(v@ =~= binds@);
            assert(name_set(v@) =~= pattern_names(*p));
            v
        },
        crate::parser::ast::Pattern::Ident(n) => {
            let mut v: Vec<String> = Vec::new();
            let ghost e = v@;
            v.push(n.clone());
            proof {
                lemma_name_set_push(e, *n);
                assert(name_set(e) =~= Set::empty());
            }
            assert(name_set(v@) =~= pattern_names(*p));
            v
        },
        crate::parser::ast::Pattern::Wildcard => {
            let v: Vec<String> = Vec::new();
            assert(name_set(v@) =~= pattern_names(*p));
            v
        },
    }
}

impl Renamer {
    fn expr(&self, e: &mut Expr, skip: &[String], bound: &mut Vec<Vec<String>>)
        ensures
            expr_renamed(self.ren(), *old(e), *final(e), name_set(skip@), bound_set(old(bound)@)),
            final(bound)@ == old(bound)@,
        decreases *old(e),
    {
        match &mut e.kind {
            ExprKind::Ident(n) => {
                let b = self.is_bound(n.as_str(), bound.as_slice());
                assert(b == bound_set(bound@).contains(n@));
                if !b {
                    match self.renamed(n.as_str()) {
                        Some(nn) => {
                            *n = nn;
                        },
                        None => {},
                    }
                }
            },
            ExprKind::Unary(_, x) => self.expr(x, skip, bound),
            ExprKind::Binary(_, a, c) => {
                self.expr(a, skip, bound);
                self.expr(c, skip, bound);
            },
            ExprKind::Index(a, c) => {
                self.expr(a, skip, bound);
                self.expr(c, skip, bound);
            },
            ExprKind::Range(a, c, _) => {
                self.expr(a, skip, bound);
                self.expr(c, skip, bound);
            },
            ExprKind::Call(f, args) => {
                self.expr(f, skip, bound);
                self.exprs(args, skip, bound);
            },
            ExprKind::Field(x, _) => self.expr(x, skip, bound),
            ExprKind::Tuple(xs) => self.exprs(xs, skip, bound),
            ExprKind::Array(xs) => self.exprs(xs, skip, bound),
            ExprKind::StructLit(name, fs) => {
                match self.renamed(name.as_str()) {
                    Some(nn) => {
                        *name = nn;
                    },
                    None => {},
                }
                self.field_exprs(fs, skip, bound);
            },
            ExprKind::Lambda(l) => {
                let names = param_scope(&l.params);
                self.params(&mut l.params, skip);
                self.ty(&mut l.ret, skip);
                let ghost b0 = bound@;
                bound.push(names);
                proof {
                    lemma_bound_push(b0, names);
                }
                self.block(&mut l.body, skip, bound);
                bound.pop();
                assert(bound@ =~= b0);
            },
            ExprKind::Match(m) => self.match_(m, skip, bound),
            ExprKind::Do(_, binds) => {
                let names = do_scope(binds);
                let ghost b0 = bound@;
                bound.push(names);
                proof {
                    lemma_bound_push(b0, names);
                }
                self.dobind_exprs(binds, skip, bound);
                bound.pop();
                assert(bound@ =~= b0);
            },
            ExprKind::SizeofType(t) => self.ty(t, skip),
            _ => {},
        }
    }

    fn exprs(&self, v: &mut Vec<Expr>, skip: &[String], bound: &mut Vec<Vec<String>>)
        ensures
            exprs_renamed(self.ren(), old(v)@, final(v)@, name_set(skip@), bound_set(old(bound)@)),
            final(bound)@ == old(bound)@,
        decreases old(v)@,
    {
        let ghost o = v@;
        let ghost b0 = bound@;
        let mut i: usize = 0;
        while i < v.len()
            invariant
                0 <= i <= v@.len(),
                o == old(v)@,
                b0 == old(bound)@,
                bound@ == b0,
                v@.len() == o.len(),
                forall|j: int| 0 <= j < i ==> expr_renamed(self.ren(), o[j], #[trigger] v@[j], name_set(skip@), bound_set(b0)),
                forall|j: int| i <= j < v@.len() ==> #[trigger] v@[j] == o[j],
            decreases v.len() - i,
        {
            proof {
                assert(decreases_to!(o => o[i as int]));
            }
            self.expr(&mut v[i], skip, bound);
            i = i + 1;
        }
    }

    fn field_exprs(&self, v: &mut Vec<(String, Expr)>, skip: &[String], bound: &mut Vec<Vec<String>>)
        ensures
            old(v)@.len() == final(v)@.len(),
            forall|j: int| 0 <= j < old(v)@.len() ==> (#[trigger] final(v)@[j]).0 == old(v)@[j].0 && expr_renamed(self.ren(), old(v)@[j].1, final(v)@[j].1, name_set(skip@), bound_set(old(bound)@)),
            final(bound)@ == old(bound)@,
        decreases old(v)@,
    {
        let ghost o = v@;
        let ghost b0 = bound@;
        let mut i: usize = 0;
        while i < v.len()
            invariant
                0 <= i <= v@.len(),
                o == old(v)@,
                b0 == old(bound)@,
                bound@ == b0,
                v@.len() == o.len(),
                forall|j: int| 0 <= j < i ==> (#[trigger] v@[j]).0 == o[j].0 && expr_renamed(self.ren(), o[j].1, v@[j].1, name_set(skip@), bound_set(b0)),
                forall|j: int| i <= j < v@.len() ==> #[trigger] v@[j] == o[j],
            decreases v.len() - i,
        {
            proof {
                assert(decreases_to!(o => o[i as int]));
                assert(decreases_to!(o[i as int] => o[i as int].1));
            }
            self.expr(&mut v[i].1, skip, bound);
            i = i + 1;
        }
    }

    fn dobind_exprs(&self, v: &mut Vec<DoBind>, skip: &[String], bound: &mut Vec<Vec<String>>)
        ensures
            old(v)@.len() == final(v)@.len(),
            forall|j: int| 0 <= j < old(v)@.len() ==> (#[trigger] final(v)@[j]).name == old(v)@[j].name && expr_renamed(self.ren(), old(v)@[j].expr, final(v)@[j].expr, name_set(skip@), bound_set(old(bound)@)),
            final(bound)@ == old(bound)@,
        decreases old(v)@,
    {
        let ghost o = v@;
        let ghost b0 = bound@;
        let mut i: usize = 0;
        while i < v.len()
            invariant
                0 <= i <= v@.len(),
                o == old(v)@,
                b0 == old(bound)@,
                bound@ == b0,
                v@.len() == o.len(),
                forall|j: int| 0 <= j < i ==> (#[trigger] v@[j]).name == o[j].name && expr_renamed(self.ren(), o[j].expr, v@[j].expr, name_set(skip@), bound_set(b0)),
                forall|j: int| i <= j < v@.len() ==> #[trigger] v@[j] == o[j],
            decreases v.len() - i,
        {
            proof {
                assert(decreases_to!(o => o[i as int]));
                assert(decreases_to!(o[i as int] => o[i as int].expr));
            }
            self.expr(&mut v[i].expr, skip, bound);
            i = i + 1;
        }
    }

    fn block(&self, b: &mut Block, skip: &[String], bound: &mut Vec<Vec<String>>)
        ensures
            stmts_renamed(self.ren(), old(b).stmts@, final(b).stmts@, name_set(skip@), bound_set(old(bound)@)),
            final(bound)@ == old(bound)@,
        decreases *old(b),
    {
        let ghost o = b.stmts@;
        let ghost b0 = bound@;
        let scope: Vec<String> = Vec::new();
        proof {
            lemma_bound_push(b0, scope);
            assert(name_set(scope@) =~= Set::empty());
            assert(let_names(o, 0) =~= Set::empty());
            assert(bound_set(b0.push(scope)) =~= bound_set(b0).union(let_names(o, 0)));
        }
        bound.push(scope);
        let mut i: usize = 0;
        while i < b.stmts.len()
            invariant
                0 <= i <= b.stmts@.len(),
                o == old(b).stmts@,
                b0 == old(bound)@,
                b.stmts@.len() == o.len(),
                bound@.len() == b0.len() + 1,
                forall|k: int| 0 <= k < b0.len() ==> #[trigger] bound@[k] == b0[k],
                bound_set(bound@) == bound_set(b0).union(let_names(o, i as int)),
                forall|j: int|
                    0 <= j < i ==> stmt_renamed(self.ren(), o[j], #[trigger] b.stmts@[j], name_set(skip@), bound_set(b0).union(let_names(o, j))),
                forall|j: int| i <= j < b.stmts@.len() ==> #[trigger] b.stmts@[j] == o[j],
            decreases b.stmts.len() - i,
        {
            proof {
                assert(decreases_to!(*old(b) => old(b).stmts));
                assert(decreases_to!(old(b).stmts => o[i as int]));
                lemma_let_names_step(o, i as int);
            }
            self.stmt(&mut b.stmts[i], skip, bound);
            assert(bound_set(bound@) =~= bound_set(b0).union(let_names(o, i + 1)));
            i = i + 1;
        }
        bound.pop();
        assert(bound@ =~= b0);
    }

    fn stmt(&self, s: &mut Stmt, skip: &[String], bound: &mut Vec<Vec<String>>)
        requires
            old(bound)@.len() >= 1,
        ensures
            stmt_renamed(self.ren(), *old(s), *final(s), name_set(skip@), bound_set(old(bound)@)),
            final(bound)@.len() == old(bound)@.len(),
            forall|k: int| 0 <= k < old(bound)@.len() - 1 ==> #[trigger] final(bound)@[k] == old(bound)@[k],
            bound_set(final(bound)@) == bound_set(old(bound)@).union(stmt_lets(*old(s))),
        decreases *old(s),
    {
        let ghost b0 = bound@;
        match s {
            Stmt::Let(l) => {
                self.expr(&mut l.value, skip, bound);
                self.binds(&mut l.binds, skip);
                let mut k: usize = 0;
                assert(bind_names(l.binds@.take(0)) =~= Set::empty());
                assert(bound_set(bound@) =~= bound_set(b0).union(bind_names(l.binds@.take(0))));
                while k < l.binds.len()
                    invariant
                        0 <= k <= l.binds@.len(),
                        bound@.len() == b0.len(),
                        b0.len() >= 1,
                        forall|j: int| 0 <= j < b0.len() - 1 ==> #[trigger] bound@[j] == b0[j],
                        bound_set(bound@) == bound_set(b0).union(bind_names(l.binds@.take(k as int))),
                    decreases l.binds.len() - k,
                {
                    self.bind(bound, &l.binds[k].name);
                    proof {
                        assert(bind_names(l.binds@.take(k + 1)) =~= bind_names(l.binds@.take(k as int)).insert(l.binds@[k as int].name@)) by {
                            assert(l.binds@.take(k + 1)[k as int] == l.binds@[k as int]);
                            assert forall|x: Seq<char>| bind_names(l.binds@.take(k as int)).contains(x) implies bind_names(l.binds@.take(k + 1)).contains(x) by {
                                let j = choose|j: int| 0 <= j < k && (#[trigger] l.binds@.take(k as int)[j]).name@ == x;
                                assert(l.binds@.take(k + 1)[j] == l.binds@.take(k as int)[j]);
                            }
                            assert forall|x: Seq<char>| bind_names(l.binds@.take(k + 1)).contains(x) implies bind_names(l.binds@.take(k as int)).insert(l.binds@[k as int].name@).contains(x) by {
                                let j = choose|j: int| 0 <= j < k + 1 && (#[trigger] l.binds@.take(k + 1)[j]).name@ == x;
                                if j < k {
                                    assert(l.binds@.take(k + 1)[j] == l.binds@.take(k as int)[j]);
                                }
                            }
                        }
                    }
                    k = k + 1;
                }
                proof {
                    assert(l.binds@.take(k as int) =~= l.binds@);
                    let ob = old(s)->Let_0.binds@;
                    assert(bind_names(l.binds@) =~= bind_names(ob)) by {
                        assert forall|x: Seq<char>| bind_names(l.binds@).contains(x) implies bind_names(ob).contains(x) by {
                            let j = choose|j: int| 0 <= j < l.binds@.len() && (#[trigger] l.binds@[j]).name@ == x;
                            assert(ob[j].name == l.binds@[j].name);
                        }
                        assert forall|x: Seq<char>| bind_names(ob).contains(x) implies bind_names(l.binds@).contains(x) by {
                            let j = choose|j: int| 0 <= j < ob.len() && (#[trigger] ob[j]).name@ == x;
                            assert(ob[j].name == l.binds@[j].name);
                        }
                    }
                }
            },
            Stmt::Assign(a, c) => {
                self.expr(a, skip, bound);
                self.expr(c, skip, bound);
                assert(bound_set(bound@) =~= bound_set(b0).union(Set::empty()));
            },
            Stmt::AssignOp(_, a, c) => {
                self.expr(a, skip, bound);
                self.expr(c, skip, bound);
                assert(bound_set(bound@) =~= bound_set(b0).union(Set::empty()));
            },
            Stmt::Break(_) => {
                assert(bound_set(bound@) =~= bound_set(b0).union(Set::empty()));
            },
            Stmt::Continue(_) => {
                assert(bound_set(bound@) =~= bound_set(b0).union(Set::empty()));
            },
            Stmt::Return(Some(e)) => {
                self.expr(e, skip, bound);
                assert(bound_set(bound@) =~= bound_set(b0).union(Set::empty()));
            },
            Stmt::Defer(e) => {
                self.expr(e, skip, bound);
                assert(bound_set(bound@) =~= bound_set(b0).union(Set::empty()));
            },
            Stmt::Expr(e) => {
                self.expr(e, skip, bound);
                assert(bound_set(bound@) =~= bound_set(b0).union(Set::empty()));
            },
            Stmt::Return(None) => {
                assert(bound_set(bound@) =~= bound_set(b0).union(Set::empty()));
            },
            Stmt::If(i) => {
                self.expr(&mut i.cond, skip, bound);
                self.block(&mut i.then_block, skip, bound);
                match &mut i.els {
                    Some(e) => self.block(e, skip, bound),
                    None => {},
                }
                assert(bound_set(bound@) =~= bound_set(b0).union(Set::empty()));
            },
            Stmt::While(w) => {
                self.expr(&mut w.cond, skip, bound);
                self.block(&mut w.body, skip, bound);
                assert(bound_set(bound@) =~= bound_set(b0).union(Set::empty()));
            },
            Stmt::For(f) => {
                self.expr(&mut f.iter, skip, bound);
                let mut scope: Vec<String> = Vec::new();
                let ghost e0 = scope@;
                scope.push(f.var.clone());
                proof {
                    lemma_name_set_push(e0, f.var);
                    assert(name_set(e0) =~= Set::empty());
                    lemma_bound_push(b0, scope);
                    assert(bound_set(b0).union(name_set(scope@)) =~= bound_set(b0).insert(f.var@));
                }
                bound.push(scope);
                self.block(&mut f.body, skip, bound);
                bound.pop();
                assert(bound@ =~= b0);
                assert(bound_set(bound@) =~= bound_set(b0).union(Set::empty()));
            },
            Stmt::Match(m) => {
                self.match_(m, skip, bound);
                assert(bound_set(bound@) =~= bound_set(b0).union(Set::empty()));
            },
        }
    }

    fn match_(&self, m: &mut Match, skip: &[String], bound: &mut Vec<Vec<String>>)
        ensures
            match_renamed(self.ren(), *old(m), *final(m), name_set(skip@), bound_set(old(bound)@)),
            final(bound)@ == old(bound)@,
        decreases *old(m),
    {
        self.expr(&mut m.scrut, skip, bound);
        let ghost o = m.arms@;
        let ghost b0 = bound@;
        let mut i: usize = 0;
        while i < m.arms.len()
            invariant
                0 <= i <= m.arms@.len(),
                o == old(m).arms@,
                b0 == old(bound)@,
                bound@ == b0,
                m.arms@.len() == o.len(),
                expr_renamed(self.ren(), *old(m).scrut, *m.scrut, name_set(skip@), bound_set(b0)),
                forall|j: int|
                    0 <= j < i ==> (#[trigger] m.arms@[j]).pat == o[j].pat && stmts_renamed(
                        self.ren(),
                        o[j].body.stmts@,
                        m.arms@[j].body.stmts@,
                        name_set(skip@),
                        bound_set(b0).union(pattern_names(o[j].pat)),
                    ),
                forall|j: int| i <= j < m.arms@.len() ==> #[trigger] m.arms@[j] == o[j],
            decreases m.arms.len() - i,
        {
            proof {
                assert(decreases_to!(*old(m) => old(m).arms));
                assert(decreases_to!(old(m).arms => o[i as int]));
                assert(decreases_to!(o[i as int] => o[i as int].body));
            }
            let scope = pattern_scope(&m.arms[i].pat);
            proof {
                lemma_bound_push(b0, scope);
            }
            bound.push(scope);
            self.block(&mut m.arms[i].body, skip, bound);
            bound.pop();
            assert(bound@ =~= b0);
            i = i + 1;
        }
    }

    /// Renames a function's signature and body; its parameters are bound in
    /// the body and its generic parameters are never renamed.
    fn func(&self, f: &mut Func)
        ensures
            func_renamed(self.ren(), *old(f), *final(f)),
            final(f).name == old(f).name,
    {
        let names = param_scope(&f.params);
        self.params(&mut f.params, f.generics.as_slice());
        self.ty(&mut f.ret, f.generics.as_slice());
        let mut bound: Vec<Vec<String>> = Vec::new();
        let ghost e0 = bound@;
        bound.push(names);
        proof {
            lemma_bound_push(e0, names);
            assert(bound_set(e0) =~= Set::empty());
            assert(bound_set(bound@) =~= param_names(old(f).params@));
        }
        self.block(&mut f.body, f.generics.as_slice(), &mut bound);
    }

    fn methods(&self, ms: &mut Vec<Func>)
        ensures
            old(ms)@.len() == final(ms)@.len(),
            forall|k: int| 0 <= k < old(ms)@.len() ==> (#[trigger] final(ms)@[k]).name == old(ms)@[k].name && func_renamed(self.ren(), old(ms)@[k], final(ms)@[k]),
    {
        let ghost o = ms@;
        let mut k: usize = 0;
        while k < ms.len()
            invariant
                0 <= k <= ms@.len(),
                o == old(ms)@,
                ms@.len() == o.len(),
                forall|j: int| 0 <= j < k ==> (#[trigger] ms@[j]).name == o[j].name && func_renamed(self.ren(), o[j], ms@[j]),
                forall|j: int| k <= j < ms@.len() ==> #[trigger] ms@[j] == o[j],
            decreases ms.len() - k,
        {
            self.func(&mut ms[k]);
            k = k + 1;
        }
    }

    fn rename_field_name(&self, n: &mut String)
        ensures
            final(n)@ == self.ren()(old(n)@),
    {
        let ghost n0 = n@;
        match self.renamed(n.as_str()) {
            Some(nn) => {
                *n = nn;
            },
            None => {},
        }
        assert(self.ren()(n0) == ren_name(self.map@, n0));
    }

    /// Renames an item: its name when it is a renamed top level name, and the
    /// types and references inside it.
    fn item(&self, it: &mut Item)
        ensures
            item_renamed(self.ren(), *old(it), *final(it)),
    {
        match it {
            Item::Func(f) => {
                self.rename_field_name(&mut f.name);
                self.func(f);
            },
            Item::Struct(s) => {
                self.rename_field_name(&mut s.name);
                self.fields(&mut s.fields, s.generics.as_slice());
            },
            Item::Enum(e) => {
                self.rename_field_name(&mut e.name);
                let ghost o = e.variants@;
                let ghost g = e.generics;
                let ghost ex = e.exported;
                let ghost nm = e.name;
                let mut k: usize = 0;
                while k < e.variants.len()
                    invariant
                        0 <= k <= e.variants@.len(),
                        e.generics == g,
                        e.exported == ex,
                        e.name == nm,
                        e.variants@.len() == o.len(),
                        forall|j: int| 0 <= j < k ==> (#[trigger] e.variants@[j]).name == o[j].name && fields_renamed(self.ren(), o[j].fields@, e.variants@[j].fields@, name_set(g@)),
                        forall|j: int| k <= j < e.variants@.len() ==> #[trigger] e.variants@[j] == o[j],
                    decreases e.variants.len() - k,
                {
                    self.fields(&mut e.variants[k].fields, e.generics.as_slice());
                    k = k + 1;
                }
            },
            Item::Interface(d) => {
                self.rename_field_name(&mut d.name);
                let ghost o = d.methods@;
                let ghost g = d.generics;
                let ghost ex = d.exported;
                let ghost nm = d.name;
                let mut k: usize = 0;
                while k < d.methods.len()
                    invariant
                        0 <= k <= d.methods@.len(),
                        d.generics == g,
                        d.exported == ex,
                        d.name == nm,
                        d.methods@.len() == o.len(),
                        forall|j: int| 0 <= j < k ==> (#[trigger] d.methods@[j]).name == o[j].name && params_renamed(self.ren(), o[j].params@, d.methods@[j].params@, name_set(g@)) && ty_renamed(self.ren(), o[j].ret, d.methods@[j].ret, name_set(g@)),
                        forall|j: int| k <= j < d.methods@.len() ==> #[trigger] d.methods@[j] == o[j],
                    decreases d.methods.len() - k,
                {
                    self.params(&mut d.methods[k].params, d.generics.as_slice());
                    self.ty(&mut d.methods[k].ret, d.generics.as_slice());
                    k = k + 1;
                }
            },
            Item::Impl(im) => {
                self.rename_field_name(&mut im.ty);
                match &mut im.iface {
                    Some(x) => self.rename_field_name(x),
                    None => {},
                }
                self.methods(&mut im.methods);
            },
            Item::Foreign(_) => {},
        }
    }
}


/// `x` is the name of a non exported function, struct, enum or interface.
pub open spec fn is_private_named(it: Item, x: Seq<char>) -> bool {
    match it {
        Item::Func(f) => !f.exported && f.name@ == x,
        Item::Struct(s) => !s.exported && s.name@ == x,
        Item::Enum(e) => !e.exported && e.name@ == x,
        Item::Interface(d) => !d.exported && d.name@ == x,
        _ => false,
    }
}

/// `x` is a private top level name among the first `n` items.
pub open spec fn is_private_in(items: Seq<Item>, n: int, x: Seq<char>) -> bool {
    exists|j: int| 0 <= j < n && #[trigger] is_private_named(items[j], x)
}

/// The name `x` gets in a module privatized with `suffix`: a private top level
/// name becomes `x__suffix`; any other name stays.
pub open spec fn priv_name(items: Seq<Item>, suffix: Seq<char>, x: Seq<char>) -> Seq<char> {
    if exists|i: int| 0 <= i < items.len() && #[trigger] is_private_named(items[i], x) {
        x + "__"@ + suffix
    } else {
        x
    }
}

proof fn lemma_lookup_none(map: Seq<(String, String)>, x: Seq<char>, n: int)
    requires
        0 <= n <= map.len(),
        forall|k: int| 0 <= k < n ==> (#[trigger] map[k]).0@ != x,
    ensures
        lookup(map, x, n) is None,
    decreases n,
{
    if n > 0 {
        lemma_lookup_none(map, x, n - 1);
    }
}

proof fn lemma_lookup_some(map: Seq<(String, String)>, x: Seq<char>, v: Seq<char>, n: int)
    requires
        0 <= n <= map.len(),
        exists|k: int| 0 <= k < n && (#[trigger] map[k]).0@ == x,
        forall|k: int| 0 <= k < n && (#[trigger] map[k]).0@ == x ==> map[k].1@ == v,
    ensures
        lookup(map, x, n) == Some(v),
    decreases n,
{
    if exists|k: int| 0 <= k < n - 1 && (#[trigger] map[k]).0@ == x {
        lemma_lookup_some(map, x, v, n - 1);
    } else {
        lemma_lookup_none(map, x, n - 1);
    }
}

/// The name a function, struct, enum or interface item declares, and whether
/// it is exported; `None` for an impl or a foreign block.
pub open spec fn item_decl(it: Item) -> Option<(Seq<char>, bool)> {
    match it {
        Item::Func(f) => Some((f.name@, f.exported)),
        Item::Struct(s) => Some((s.name@, s.exported)),
        Item::Enum(e) => Some((e.name@, e.exported)),
        Item::Interface(d) => Some((d.name@, d.exported)),
        _ => None,
    }
}

/// What privatizing does to the names items declare: a private item's name
/// gains `__` and the suffix; an exported item keeps its name unless a private
/// item of the module declares the same one; a foreign block is untouched.
pub proof fn law_privatized_names(old_items: Seq<Item>, new_items: Seq<Item>, suffix: Seq<char>, k: int)
    requires
        0 <= k < old_items.len(),
        new_items.len() == old_items.len(),
        forall|i: int|
            0 <= i < old_items.len() ==> item_renamed(
                |x: Seq<char>| priv_name(old_items, suffix, x),
                old_items[i],
                #[trigger] new_items[i],
            ),
    ensures
        item_decl(old_items[k]) matches Some((x, exported)) ==> {
            &&& item_decl(new_items[k]) matches Some(d)
            &&& !exported ==> d.0 == x + "__"@ + suffix
            &&& (exported && !is_private_in(old_items, old_items.len() as int, x)) ==> d.0 == x
        },
        old_items[k] is Foreign ==> new_items[k] == old_items[k],
{
    let ren = |x: Seq<char>| priv_name(old_items, suffix, x);
    assert(item_renamed(ren, old_items[k], new_items[k]));
    if let Some((x, exported)) = item_decl(old_items[k]) {
        if !exported {
            assert(is_private_named(old_items[k], x));
        }
    }
}

/// Renames the private top level items of a parsed module with `suffix` and
/// rewrites every reference inside the module to the new names. The root
/// module is never privatized by the loader; exported names and foreign
/// functions are never renamed.
pub fn privatize(m: &mut Module, suffix: &str)
    ensures
        final(m).paradigms == old(m).paradigms,
        final(m).imports == old(m).imports,
        final(m).monads == old(m).monads,
        (forall|i: int, x: Seq<char>| 0 <= i < old(m).items@.len() ==> !#[trigger] is_private_named(old(m).items@[i], x))
            ==> *final(m) == *old(m),
        (exists|i: int, x: Seq<char>| 0 <= i < old(m).items@.len() && #[trigger] is_private_named(old(m).items@[i], x))
            ==> {
            &&& final(m).items@.len() == old(m).items@.len()
            &&& forall|i: int|
                0 <= i < old(m).items@.len() ==> item_renamed(
                    |x: Seq<char>| priv_name(old(m).items@, suffix@, x),
                    old(m).items@[i],
                    #[trigger] final(m).items@[i],
                )
        },
{
    let ghost items = m.items@;
    let mut map: Vec<(String, String)> = Vec::new();
    let mut i: usize = 0;
    while i < m.items.len()
        invariant
            items == m.items@,
            *m == *old(m),
            0 <= i <= items.len(),
            forall|k: int| 0 <= k < map@.len() ==> (#[trigger] map@[k]).1@ == map@[k].0@ + "__"@ + suffix@,
            forall|k: int| 0 <= k < map@.len() ==> is_private_in(items, i as int, (#[trigger] map@[k]).0@),
            forall|j: int, x: Seq<char>| 0 <= j < i && #[trigger] is_private_named(items[j], x) ==> exists|k: int| 0 <= k < map@.len() && (#[trigger] map@[k]).0@ == x,
            map@.len() == 0 ==> forall|j: int, x: Seq<char>| 0 <= j < i ==> !#[trigger] is_private_named(items[j], x),
        decreases m.items.len() - i,
    {
        let found: Option<&String> = match &m.items[i] {
            Item::Func(f) => if !f.exported { Some(&f.name) } else { None },
            Item::Struct(s) => if !s.exported { Some(&s.name) } else { None },
            Item::Enum(e) => if !e.exported { Some(&e.name) } else { None },
            Item::Interface(d) => if !d.exported { Some(&d.name) } else { None },
            _ => None,
        };
        let ghost before = map@;
        match found {
            Some(n) => {
                let mut nn = n.clone();
                push_str(&mut nn, "__");
                push_str(&mut nn, suffix);
                map.push((n.clone(), nn));
                proof {
                    assert(is_private_named(items[i as int], n@));
                    assert forall|j: int, x: Seq<char>| 0 <= j < i + 1 && #[trigger] is_private_named(items[j], x) implies exists|k: int| 0 <= k < map@.len() && (#[trigger] map@[k]).0@ == x by {
                        if j < i {
                            let k = choose|k: int| 0 <= k < before.len() && (#[trigger] before[k]).0@ == x;
                            assert(map@[k] == before[k]);
                        } else {
                            assert(map@[before.len() as int].0@ == x);
                        }
                    }
                    assert forall|k: int| 0 <= k < map@.len() implies is_private_in(items, i + 1, (#[trigger] map@[k]).0@) by {
                        if k < before.len() {
                            assert(map@[k] == before[k]);
                            let j = choose|j: int| 0 <= j < i && #[trigger] is_private_named(items[j], before[k].0@);
                            assert(0 <= j < i + 1 && is_private_named(items[j], map@[k].0@));
                        } else {
                            assert(is_private_named(items[i as int], map@[k].0@));
                        }
                    }
                }
            },
            None => {
                proof {
                    assert forall|x: Seq<char>| !#[trigger] is_private_named(items[i as int], x) by {}
                    assert forall|k: int| 0 <= k < map@.len() implies is_private_in(items, i + 1, (#[trigger] map@[k]).0@) by {
                        let j = choose|j: int| 0 <= j < i && #[trigger] is_private_named(items[j], map@[k].0@);
                        assert(0 <= j < i + 1 && is_private_named(items[j], map@[k].0@));
                    }
                }
            },
        }
        i = i + 1;
    }
    if map.len() == 0 {
        return;
    }
    let r = Renamer { map };
    proof {
        let pn = |x: Seq<char>| priv_name(items, suffix@, x);
        assert forall|x: Seq<char>| #[trigger] r.ren()(x) == pn(x) by {
            if exists|j: int| 0 <= j < items.len() && #[trigger] is_private_named(items[j], x) {
                lemma_lookup_some(r.map@, x, x + "__"@ + suffix@, r.map@.len() as int);
            } else {
                assert forall|k: int| 0 <= k < r.map@.len() implies (#[trigger] r.map@[k]).0@ != x by {
                    assert(is_private_in(items, items.len() as int, r.map@[k].0@));
                    let j = choose|j: int| 0 <= j < items.len() && #[trigger] is_private_named(items[j], r.map@[k].0@);
                }
                lemma_lookup_none(r.map@, x, r.map@.len() as int);
            }
        }
        assert(r.ren() =~= pn);
    }
    let mut k: usize = 0;
    while k < m.items.len()
        invariant
            items == old(m).items@,
            m.paradigms == old(m).paradigms,
            m.imports == old(m).imports,
            m.monads == old(m).monads,
            m.items@.len() == items.len(),
            0 <= k <= items.len(),
            r.ren() == (|x: Seq<char>| priv_name(items, suffix@, x)),
            forall|j: int| 0 <= j < k ==> item_renamed(r.ren(), items[j], #[trigger] m.items@[j]),
            forall|j: int| k <= j < m.items@.len() ==> #[trigger] m.items@[j] == items[j],
        decreases m.items.len() - k,
    {
        r.item(&mut m.items[k]);
        k = k + 1;
    }
}

} // verus!
